//! Decisions of the model: what is asked, how the answer is read, and what is logged.
//!
//! A round runs in three steps. The short list and the context are computed, the model is
//! asked, and its reply is turned into order intents. Asking is left to the caller.

use vstd::prelude::*;

use crate::account::{DecisionLog, DecisionView};
use crate::context;
use crate::context::{build_context, is_describable, CandidateItem, MarketEnv, WatchItem};
use crate::intent;
use crate::intent::{IntentView, OrderIntent, OrderSide};
use crate::ledger::{AccountDb, LedgerView};
use crate::risk::MarketState;
use crate::text;
use crate::text::{chars_of, has_prefix, has_suffix, string_of, strip_trailing, text_eq, trim_text};

verus! {

/// How the model is reached.
#[derive(Debug)]
pub struct LlmConfig {
    pub base_url: String,
    pub api_key: String,
    pub model: String,
}

#[verifier::ext_equal]
pub struct LlmView {
    pub base_url: Seq<char>,
    pub api_key: Seq<char>,
    pub model: Seq<char>,
}

impl View for LlmConfig {
    type V = LlmView;

    open spec fn view(&self) -> LlmView {
        LlmView { base_url: self.base_url@, api_key: self.api_key@, model: self.model@ }
    }
}

impl Clone for LlmConfig {
    fn clone(&self) -> (r: Self)
        ensures
            r@ == self@,
    {
        LlmConfig {
            base_url: self.base_url.clone(),
            api_key: self.api_key.clone(),
            model: self.model.clone(),
        }
    }
}

/// What came of a round.
#[derive(Debug)]
pub struct DecisionResult {
    /// The orders that the model wants.
    pub intents: Vec<OrderIntent>,
    /// What became of the round: executed, hold, rejected or error.
    pub status: String,
    pub note: String,
    /// The number under which the round is logged.
    pub log_id: i64,
    /// The reply of the model.
    pub raw_response: String,
}

#[verifier::ext_equal]
pub struct ResultView {
    pub intents: Seq<IntentView>,
    pub status: Seq<char>,
    pub note: Seq<char>,
    pub log_id: i64,
    pub raw_response: Seq<char>,
}

impl View for DecisionResult {
    type V = ResultView;

    open spec fn view(&self) -> ResultView {
        ResultView {
            intents: intent::intents(self.intents@),
            status: self.status@,
            note: self.note@,
            log_id: self.log_id,
            raw_response: self.raw_response@,
        }
    }
}

/// Why a round failed.
#[derive(Debug)]
pub enum DecisionError {
    Store(String),
    Llm(String),
    Parse(String),
    MissingApiKey,
}

impl DecisionError {
    /// What the user reads.
    pub open spec fn text(self) -> Seq<char> {
        match self {
            DecisionError::Store(s) => "存储错误: "@ + s@,
            DecisionError::Llm(s) => "LLM 调用失败: "@ + s@,
            DecisionError::Parse(s) => "LLM 输出解析失败: "@ + s@,
            DecisionError::MissingApiKey => "未配置 LLM_API_KEY"@,
        }
    }

    /// What the user reads.
    pub fn message(&self) -> (r: String)
        ensures
            r@ == self.text(),
    {
        let mut out = String::new();
        match self {
            DecisionError::Store(s) => {
                out.append("存储错误: ");
                out.append(s.as_str());
            },
            DecisionError::Llm(s) => {
                out.append("LLM 调用失败: ");
                out.append(s.as_str());
            },
            DecisionError::Parse(s) => {
                out.append("LLM 输出解析失败: ");
                out.append(s.as_str());
            },
            DecisionError::MissingApiKey => out.append("未配置 LLM_API_KEY"),
        }
        assert(out@ =~= self.text());
        out
    }
}

/// An action in the reply of the model.
#[derive(Debug)]
pub struct Action {
    pub action: String,
    pub symbol: String,
    pub quantity: Option<u32>,
    pub reason: Option<String>,
}

#[verifier::ext_equal]
pub struct ActionView {
    pub action: Seq<char>,
    pub symbol: Seq<char>,
    pub quantity: Option<u32>,
    pub reason: Option<Seq<char>>,
}

impl View for Action {
    type V = ActionView;

    open spec fn view(&self) -> ActionView {
        ActionView {
            action: self.action@,
            symbol: self.symbol@,
            quantity: self.quantity,
            reason: match self.reason {
                Some(s) => Some(s@),
                None => None,
            },
        }
    }
}

pub open spec fn action_views(list: Seq<Action>) -> Seq<ActionView> {
    Seq::new(list.len(), |i: int| list[i]@)
}

/// The reply of the model, read.
#[derive(Debug)]
pub struct ParsedOutput {
    pub actions: Vec<Action>,
    /// The actions as JSON, for the log.
    pub actions_json: String,
    pub comment: String,
}

/// The order that an action stands for; none for `hold`, for an unknown action, and where
/// no shares are named.
pub open spec fn order_of(a: ActionView) -> Option<IntentView> {
    let side = if a.action == "buy"@ {
        Some(OrderSide::Buy)
    } else if a.action == "sell"@ {
        Some(OrderSide::Sell)
    } else {
        None
    };
    match (side, a.quantity) {
        (Some(side), Some(quantity)) => if quantity > 0 {
            Some(
                IntentView {
                    thscode: a.symbol,
                    name: Seq::empty(),
                    side,
                    quantity,
                    decision_id: None,
                },
            )
        } else {
            None
        },
        _ => None,
    }
}

/// The orders that a list of actions stands for.
pub open spec fn orders_of(actions: Seq<ActionView>) -> Seq<IntentView>
    decreases actions.len(),
{
    if actions.len() == 0 {
        Seq::empty()
    } else {
        let before = orders_of(actions.drop_last());
        match order_of(actions.last()) {
            Some(order) => before.push(order),
            None => before,
        }
    }
}

/// The orders that a list of actions stands for.
pub fn to_intents(actions: &Vec<Action>) -> (r: Vec<OrderIntent>)
    ensures
        intent::intents(r@) == orders_of(action_views(actions@)),
{
    let ghost all = action_views(actions@);
    let mut out: Vec<OrderIntent> = Vec::new();
    assert(all.take(0) =~= Seq::empty());
    assert(intent::intents(out@) =~= Seq::empty());
    for i in 0..actions.len()
        invariant
            all == action_views(actions@),
            intent::intents(out@) == orders_of(all.take(i as int)),
    {
        let a = &actions[i];
        proof {
            assert(all.take(i + 1).drop_last() =~= all.take(i as int));
            assert(all.take(i + 1).last() == a@);
        }
        let side = if text_eq(a.action.as_str(), "buy") {
            Some(OrderSide::Buy)
        } else if text_eq(a.action.as_str(), "sell") {
            Some(OrderSide::Sell)
        } else {
            None
        };
        let quantity: u32 = match a.quantity {
            Some(q) => q,
            None => 0,
        };
        if let Some(side) = side {
            if quantity > 0 {
                let ghost before = intent::intents(out@);
                let order = OrderIntent {
                    thscode: a.symbol.clone(),
                    name: String::new(),
                    side,
                    quantity,
                    decision_id: None,
                };
                let ghost view = order@;
                out.push(order);
                assert(intent::intents(out@) =~= before.push(view));
                assert(view.name =~= Seq::empty());
                assert(Some(view) == order_of(a@));
            }
        }
    }
    assert(all.take(all.len() as int) =~= all);
    out
}

/// A text without a fence of back quotes around it.
pub open spec fn unfenced(s: Seq<char>) -> Seq<char> {
    if "```"@.is_prefix_of(s) {
        let inner = s.skip(3);
        if "```"@.is_suffix_of(inner) {
            inner.take(inner.len() - 3)
        } else {
            inner
        }
    } else {
        s
    }
}

/// The JSON in a reply: without white space around it, a code fence and its `json` tag.
pub open spec fn json_part(raw: Seq<char>) -> Seq<char> {
    let body = text::trimmed(unfenced(text::trimmed(raw)));
    if "json"@.is_prefix_of(body) {
        text::trimmed(body.skip(4))
    } else {
        body
    }
}

fn without_fence(s: &str) -> (r: String)
    ensures
        r@ == unfenced(s@),
{
    proof {
        reveal_strlit("```");
    }
    if !has_prefix(s, "```") {
        return s.to_owned();
    }
    let chars = chars_of(s);
    let inner = string_of(&chars, 3, chars.len());
    assert(inner@ =~= s@.skip(3));
    if has_suffix(inner.as_str(), "```") {
        let rest = chars_of(inner.as_str());
        let n: usize = rest.len();
        let out = string_of(&rest, 0, n - 3);
        assert(out@ =~= inner@.take(inner@.len() - 3));
        out
    } else {
        inner
    }
}

/// The JSON in a reply.
pub fn json_text(raw: &str) -> (r: String)
    ensures
        r@ == json_part(raw@),
{
    proof {
        reveal_strlit("json");
    }
    let trimmed = trim_text(raw);
    let inner = without_fence(trimmed.as_str());
    let body = trim_text(inner.as_str());
    if has_prefix(body.as_str(), "json") {
        let chars = chars_of(body.as_str());
        let rest = string_of(&chars, 4, chars.len());
        assert(rest@ =~= body@.skip(4));
        trim_text(rest.as_str())
    } else {
        body
    }
}

/// Where chat completions are asked for.
pub fn chat_url(base_url: &str) -> (r: String)
    ensures
        r@ == text::without_trailing(base_url@, '/') + "/v1/chat/completions"@,
{
    let mut out = strip_trailing(base_url, '/');
    out.append("/v1/chat/completions");
    out
}

/// The content of the first choice of a completion.
pub fn first_choice(choices: &Vec<String>) -> (r: Result<String, DecisionError>)
    ensures
        match r {
            Ok(s) => choices@.len() > 0 && s@ == choices@[0]@,
            Err(e) => choices@.len() == 0 && e.text() == "LLM 输出解析失败: "@ + "无 choices"@,
        },
{
    if choices.len() > 0 {
        Ok(choices[0].clone())
    } else {
        Err(DecisionError::Parse("无 choices".to_owned()))
    }
}

/// What came back from the model.
#[derive(Debug)]
pub enum ModelReply {
    /// The model could not be asked.
    Failed(DecisionError),
    /// The reply could not be read.
    Unreadable(String, DecisionError),
    /// The reply, and what was read from it.
    Read(String, ParsedOutput),
}

/// What is logged of a round.
pub open spec fn log_entry(
    model: Seq<char>,
    ctx: Seq<char>,
    raw: Seq<char>,
    actions: Seq<char>,
    status: Seq<char>,
    note: Seq<char>,
    now_ms: i64,
    id: i64,
) -> DecisionView {
    DecisionView {
        id,
        ts_ms: now_ms,
        model,
        context: ctx,
        raw_response: raw,
        actions,
        status,
        note,
    }
}

/// The books with a round logged under the next number.
pub open spec fn logged(books: LedgerView, entry: DecisionView) -> LedgerView {
    LedgerView {
        decisions: books.decisions.push(entry),
        last_decision_id: (books.last_decision_id + 1) as i64,
        ..books
    }
}

/// The orders with the number of the decision that they come from.
pub open spec fn tagged(orders: Seq<IntentView>, id: i64) -> Seq<IntentView> {
    Seq::new(orders.len(), |i: int| IntentView { decision_id: Some(id), ..orders[i] })
}

/// What becomes of a reply that was read: its orders are executed, or it holds where there
/// are none.
pub open spec fn reply_status(orders: Seq<IntentView>) -> Seq<char> {
    if orders.len() > 0 {
        "executed"@
    } else {
        "hold"@
    }
}

/// The books and the result of a round once the model has replied.
pub open spec fn concluded(
    books: LedgerView,
    model: Seq<char>,
    ctx: Seq<char>,
    reply: ModelReply,
    now_ms: i64,
) -> (LedgerView, ResultView) {
    let id = (books.last_decision_id + 1) as i64;
    match reply {
        ModelReply::Failed(e) => {
            let note = "LLM 调用失败: "@ + e.text();
            (
                logged(
                    books,
                    log_entry(model, ctx, ""@, "[]"@, "error"@, note, now_ms, id),
                ),
                ResultView {
                    intents: Seq::empty(),
                    status: "error"@,
                    note,
                    log_id: id,
                    raw_response: ""@,
                },
            )
        },
        ModelReply::Unreadable(raw, e) => {
            let note = "LLM 输出解析失败: "@ + e.text();
            (
                logged(
                    books,
                    log_entry(model, ctx, raw@, "[]"@, "error"@, note, now_ms, id),
                ),
                ResultView {
                    intents: Seq::empty(),
                    status: "error"@,
                    note,
                    log_id: id,
                    raw_response: raw@,
                },
            )
        },
        ModelReply::Read(raw, output) => (
            logged(
                books,
                log_entry(
                    model,
                    ctx,
                    raw@,
                    output.actions_json@,
                    reply_status(orders_of(action_views(output.actions@))),
                    output.comment@,
                    now_ms,
                    id,
                ),
            ),
            ResultView {
                intents: tagged(orders_of(action_views(output.actions@)), id),
                status: reply_status(orders_of(action_views(output.actions@))),
                note: "comment: "@ + output.comment@,
                log_id: id,
                raw_response: raw@,
            },
        ),
    }
}

/// What a round does next.
#[derive(Debug)]
pub enum Step {
    /// Ask the model with this context.
    Ask(String),
    /// Nothing more: the round is over.
    Done(DecisionResult),
}

/// The engine of one account.
#[derive(Debug)]
pub struct DecisionEngine {
    pub config: LlmConfig,
}

/// The configuration with the settings in place of what it says.
pub open spec fn reloaded(
    defaults: LlmView,
    base_url: Option<Seq<char>>,
    api_key: Option<Seq<char>>,
    model: Option<Seq<char>>,
) -> LlmView {
    LlmView {
        base_url: match base_url {
            Some(s) => s,
            None => defaults.base_url,
        },
        api_key: match api_key {
            Some(s) => s,
            None => defaults.api_key,
        },
        model: match model {
            Some(s) => s,
            None => defaults.model,
        },
    }
}

pub open spec fn opt_view(s: Option<String>) -> Option<Seq<char>> {
    match s {
        Some(v) => Some(v@),
        None => None,
    }
}

fn or_default(s: Option<String>, default: &String) -> (r: String)
    ensures
        r@ == (match s {
            Some(v) => v@,
            None => default@,
        }),
{
    match s {
        Some(v) => v,
        None => default.clone(),
    }
}

/// Whether a step starts a round: the context for the model is asked with, or, where there is
/// no key to the model, the round is logged and ends.
pub open spec fn is_first_step(
    step: Step,
    config: LlmView,
    before: LedgerView,
    after: LedgerView,
    ctx: Seq<char>,
    now_ms: i64,
) -> bool {
    match step {
        Step::Ask(text) => {
            &&& config.api_key.len() > 0
            &&& after == before.opened(0)
            &&& text@ == ctx
        },
        Step::Done(result) => {
            let id = (before.last_decision_id + 1) as i64;
            &&& config.api_key.len() == 0
            &&& after == logged(
                before.opened(0),
                log_entry(
                    config.model,
                    ""@,
                    ""@,
                    "[]"@,
                    "rejected"@,
                    "未配置 LLM_API_KEY，跳过"@,
                    now_ms,
                    id,
                ),
            )
            &&& result@ == (ResultView {
                intents: Seq::empty(),
                status: "rejected"@,
                note: "未配置 LLM_API_KEY"@,
                log_id: id,
                raw_response: ""@,
            })
        },
    }
}

impl DecisionEngine {
    pub fn new(config: LlmConfig) -> (r: Self)
        ensures
            r.config == config,
    {
        DecisionEngine { config }
    }

    /// Takes over the settings of the model, and tells whether anything changed.
    pub fn reload_llm(
        &mut self,
        base_url: Option<String>,
        api_key: Option<String>,
        model: Option<String>,
        defaults: &LlmConfig,
    ) -> (r: bool)
        ensures
            final(self).config@ == reloaded(
                defaults@,
                opt_view(base_url),
                opt_view(api_key),
                opt_view(model),
            ),
            r == (final(self).config@ != old(self).config@),
    {
        let base = or_default(base_url, &defaults.base_url);
        let key = or_default(api_key, &defaults.api_key);
        let name = or_default(model, &defaults.model);
        let changed = !text_eq(base.as_str(), self.config.base_url.as_str()) || !text_eq(
            key.as_str(),
            self.config.api_key.as_str(),
        ) || !text_eq(name.as_str(), self.config.model.as_str());
        if changed {
            self.config.base_url = base;
            self.config.api_key = key;
            self.config.model = name;
        }
        changed
    }

    /// Logs a round, and returns its number.
    fn log_decision(
        &self,
        acct: &mut AccountDb,
        ctx: &str,
        raw: &str,
        actions: &str,
        status: &str,
        note: &str,
        now_ms: i64,
    ) -> (r: i64)
        requires
            old(acct).wf(),
            old(acct).last_decision_id < i64::MAX,
        ensures
            final(acct).wf(),
            r == old(acct).last_decision_id + 1,
            final(acct)@ == logged(
                old(acct)@,
                log_entry(self.config.model@, ctx@, raw@, actions@, status@, note@, now_ms, r),
            ),
    {
        let log = DecisionLog {
            id: 0,
            ts_ms: now_ms,
            model: self.config.model.clone(),
            context: ctx.to_owned(),
            raw_response: raw.to_owned(),
            actions: actions.to_owned(),
            status: status.to_owned(),
            note: note.to_owned(),
        };
        acct.insert_decision_log(&log)
    }

    /// Logs a round in which the model was not asked, and returns its number.
    pub fn log_skip(&self, acct: &mut AccountDb, status: &str, note: &str, now_ms: i64) -> (r: i64)
        requires
            old(acct).wf(),
            old(acct).last_decision_id < i64::MAX,
        ensures
            final(acct).wf(),
            r == old(acct).last_decision_id + 1,
            final(acct)@ == logged(
                old(acct)@,
                log_entry(self.config.model@, ""@, ""@, "[]"@, status@, note@, now_ms, r),
            ),
    {
        self.log_decision(acct, "", "", "[]", status, note, now_ms)
    }

    /// Starts a round on a short list; none, and nothing done, where a number is out of range.
    pub fn decide_any(
        &self,
        acct: &mut AccountDb,
        market: &MarketState,
        env: &MarketEnv,
        watch: &Vec<WatchItem>,
        candidates: &Vec<CandidateItem>,
        now_ms: i64,
    ) -> (r: Option<Step>)
        requires
            old(acct).wf(),
        ensures
            final(acct).wf(),
            ({
                let watched = context::watch_views(watch@);
                let listed = context::item_views(candidates@);
                let able = old(acct).last_decision_id < i64::MAX && context::can_describe(
                    market@,
                    *env,
                    watched,
                    listed,
                );
                match r {
                    Some(step) => able && is_first_step(
                        step,
                        self.config@,
                        old(acct)@,
                        final(acct)@,
                        context::context_text(final(acct)@, market@, *env, watched, listed),
                        now_ms,
                    ),
                    None => !able && final(acct)@ == old(acct)@,
                }
            }),
    {
        if acct.last_decision_id < i64::MAX && is_describable(market, env, watch, candidates) {
            Some(self.decide(acct, market, env, watch, candidates, now_ms))
        } else {
            None
        }
    }

    /// Starts a round on a short list: the context for the model, or the end of the round
    /// where there is no key to the model.
    pub fn decide(
        &self,
        acct: &mut AccountDb,
        market: &MarketState,
        env: &MarketEnv,
        watch: &Vec<WatchItem>,
        candidates: &Vec<CandidateItem>,
        now_ms: i64,
    ) -> (r: Step)
        requires
            old(acct).wf(),
            old(acct).last_decision_id < i64::MAX,
            context::can_describe(
                market@,
                *env,
                context::watch_views(watch@),
                context::item_views(candidates@),
            ),
        ensures
            final(acct).wf(),
            is_first_step(
                r,
                self.config@,
                old(acct)@,
                final(acct)@,
                context::context_text(
                    final(acct)@,
                    market@,
                    *env,
                    context::watch_views(watch@),
                    context::item_views(candidates@),
                ),
                now_ms,
            ),
    {
        let ctx = build_context(acct, market, env, watch, candidates);
        if self.config.api_key.as_str().unicode_len() == 0 {
            let log_id = self.log_decision(
                acct,
                "",
                "",
                "[]",
                "rejected",
                "未配置 LLM_API_KEY，跳过",
                now_ms,
            );
            let result = DecisionResult {
                intents: Vec::new(),
                status: "rejected".to_owned(),
                note: "未配置 LLM_API_KEY".to_owned(),
                log_id,
                raw_response: "".to_owned(),
            };
            assert(intent::intents(result.intents@) =~= Seq::empty());
            return Step::Done(result);
        }
        Step::Ask(ctx)
    }

    /// Ends a round with what came back from the model.
    pub fn conclude(&self, acct: &mut AccountDb, ctx: &str, reply: ModelReply, now_ms: i64) -> (r:
        DecisionResult)
        requires
            old(acct).wf(),
            old(acct).last_decision_id < i64::MAX,
        ensures
            final(acct).wf(),
            (final(acct)@, r@) == concluded(
                old(acct)@,
                self.config.model@,
                ctx@,
                reply,
                now_ms,
            ),
    {
        match reply {
            ModelReply::Failed(e) => {
                let mut note = String::new();
                note.append("LLM 调用失败: ");
                let message = e.message();
                note.append(message.as_str());
                assert(note@ =~= "LLM 调用失败: "@ + e.text());
                let log_id = self.log_decision(acct, ctx, "", "[]", "error", note.as_str(), now_ms);
                let r = DecisionResult {
                    intents: Vec::new(),
                    status: "error".to_owned(),
                    note,
                    log_id,
                    raw_response: "".to_owned(),
                };
                assert(intent::intents(r.intents@) =~= Seq::empty());
                r
            },
            ModelReply::Unreadable(raw, e) => {
                let mut note = String::new();
                note.append("LLM 输出解析失败: ");
                let message = e.message();
                note.append(message.as_str());
                assert(note@ =~= "LLM 输出解析失败: "@ + e.text());
                let log_id = self.log_decision(
                    acct,
                    ctx,
                    raw.as_str(),
                    "[]",
                    "error",
                    note.as_str(),
                    now_ms,
                );
                let r = DecisionResult {
                    intents: Vec::new(),
                    status: "error".to_owned(),
                    note,
                    log_id,
                    raw_response: raw,
                };
                assert(intent::intents(r.intents@) =~= Seq::empty());
                r
            },
            ModelReply::Read(raw, output) => {
                let plain = to_intents(&output.actions);
                let status = if plain.len() > 0 {
                    "executed"
                } else {
                    "hold"
                };
                let log_id = self.log_decision(
                    acct,
                    ctx,
                    raw.as_str(),
                    output.actions_json.as_str(),
                    status,
                    output.comment.as_str(),
                    now_ms,
                );
                let intents = tag_intents(plain, log_id);
                let mut note = String::new();
                note.append("comment: ");
                note.append(output.comment.as_str());
                assert(note@ =~= "comment: "@ + output.comment@);
                DecisionResult {
                    intents,
                    status: status.to_owned(),
                    note,
                    log_id,
                    raw_response: raw,
                }
            },
        }
    }
}

fn tag_intents(orders: Vec<OrderIntent>, id: i64) -> (r: Vec<OrderIntent>)
    ensures
        intent::intents(r@) == tagged(intent::intents(orders@), id),
{
    let mut out: Vec<OrderIntent> = Vec::new();
    for i in 0..orders.len()
        invariant
            out@.len() == i,
            forall|j: int|
                0 <= j < i ==> (#[trigger] out@[j])@ == (IntentView {
                    decision_id: Some(id),
                    ..orders@[j]@
                }),
    {
        let mut order = orders[i].clone();
        order.decision_id = Some(id);
        out.push(order);
    }
    assert(intent::intents(out@) =~= tagged(intent::intents(orders@), id));
    out
}

/// A round ends as executed, hold, rejected or error.
pub open spec fn is_status(s: Seq<char>) -> bool {
    s == "executed"@ || s == "hold"@ || s == "rejected"@ || s == "error"@
}

/// Whatever the model replies, the round has one of the four statuses, and is logged with it.
pub proof fn rounds_have_a_known_status(
    books: LedgerView,
    model: Seq<char>,
    ctx: Seq<char>,
    reply: ModelReply,
    now_ms: i64,
)
    ensures
        ({
            let (after, result) = concluded(books, model, ctx, reply, now_ms);
            &&& is_status(result.status)
            &&& after.decisions.last().status == result.status
        }),
{
}

/// Every order of a reply buys or sells a positive number of shares, there are no more
/// orders than actions, and each one carries the number of the logged decision.
pub proof fn orders_of_a_reply_are_logged(
    books: LedgerView,
    model: Seq<char>,
    ctx: Seq<char>,
    reply: ModelReply,
    now_ms: i64,
    i: int,
)
    requires
        0 <= i < concluded(books, model, ctx, reply, now_ms).1.intents.len(),
        books.last_decision_id < i64::MAX,
    ensures
        ({
            let (after, result) = concluded(books, model, ctx, reply, now_ms);
            &&& result.intents[i].quantity > 0
            &&& result.intents[i].decision_id == Some(result.log_id)
            &&& after.decisions.last().id == result.log_id
            &&& reply matches ModelReply::Read(_, output) && result.intents.len()
                <= output.actions@.len()
        }),
{
    if let ModelReply::Read(_, output) = reply {
        lemma_orders(action_views(output.actions@));
    }
}

proof fn lemma_orders(actions: Seq<ActionView>)
    ensures
        orders_of(actions).len() <= actions.len(),
        forall|i: int|
            0 <= i < orders_of(actions).len() ==> (#[trigger] orders_of(actions)[i]).quantity > 0,
    decreases actions.len(),
{
    if actions.len() > 0 {
        lemma_orders(actions.drop_last());
        let before = orders_of(actions.drop_last());
        let all = orders_of(actions);
        assert forall|i: int| 0 <= i < all.len() implies (#[trigger] all[i]).quantity > 0 by {
            if i < before.len() {
                assert(all[i] == before[i]);
            }
        }
    }
}

} // verus!
