//! The configuration, from named texts such as the variables of an environment.

use vstd::prelude::*;

use crate::decimal::Decimal;
use crate::number;
use crate::number::{parse_decimal, parse_u64};
use crate::scheduler;
use crate::scheduler::parse_watchlist;
use crate::text;
use crate::text::text_eq;

verus! {

/// The configuration.
#[derive(Debug)]
pub struct Config {
    /// Directory of the market data and the accounts.
    pub data_dir: String,
    pub initial_capital: Decimal,
    /// Codes of the watch list.
    pub watchlist: Vec<String>,
    /// How many candidates the screening gives.
    pub candidate_count: usize,
    pub collect_interval_seconds: u64,
    pub ai_decision_interval_minutes: u64,
    pub llm_base_url: String,
    pub llm_api_key: String,
    pub llm_model: String,
    pub hithink_api_key: String,
    /// Guards the changes over the web; none where it is blank.
    pub admin_key: String,
}

#[verifier::ext_equal]
pub struct ConfigView {
    pub data_dir: Seq<char>,
    pub initial_capital: Decimal,
    pub watchlist: Seq<Seq<char>>,
    pub candidate_count: usize,
    pub collect_interval_seconds: u64,
    pub ai_decision_interval_minutes: u64,
    pub llm_base_url: Seq<char>,
    pub llm_api_key: Seq<char>,
    pub llm_model: Seq<char>,
    pub hithink_api_key: Seq<char>,
    pub admin_key: Seq<char>,
}

impl View for Config {
    type V = ConfigView;

    open spec fn view(&self) -> ConfigView {
        ConfigView {
            data_dir: self.data_dir@,
            initial_capital: self.initial_capital,
            watchlist: text::views(self.watchlist@),
            candidate_count: self.candidate_count,
            collect_interval_seconds: self.collect_interval_seconds,
            ai_decision_interval_minutes: self.ai_decision_interval_minutes,
            llm_base_url: self.llm_base_url@,
            llm_api_key: self.llm_api_key@,
            llm_model: self.llm_model@,
            hithink_api_key: self.hithink_api_key@,
            admin_key: self.admin_key@,
        }
    }
}

/// A named text.
#[derive(Debug)]
pub struct Variable {
    pub name: String,
    pub value: String,
}

/// The text under a name; the first one where there are several.
pub open spec fn value_of(vars: Seq<Variable>, name: Seq<char>) -> Option<Seq<char>>
    decreases vars.len(),
{
    if vars.len() == 0 {
        None
    } else if vars[0].name@ == name {
        Some(vars[0].value@)
    } else {
        value_of(vars.skip(1), name)
    }
}

pub open spec fn text_of(vars: Seq<Variable>, name: Seq<char>, default: Seq<char>) -> Seq<char> {
    match value_of(vars, name) {
        Some(v) => v,
        None => default,
    }
}

/// The number under a name, or the default where there is none or it cannot be read.
pub open spec fn count_of(vars: Seq<Variable>, name: Seq<char>, default: u64) -> u64 {
    match value_of(vars, name) {
        Some(v) => match number::u64_of(v) {
            Some(n) => n,
            None => default,
        },
        None => default,
    }
}

/// The amount under a name, or the default where there is none or it cannot be read.
pub open spec fn amount_of(vars: Seq<Variable>, name: Seq<char>, default: int) -> int {
    match value_of(vars, name) {
        Some(v) => match number::decimal_of(v) {
            Some(d) => d,
            None => default,
        },
        None => default,
    }
}

/// The configuration of named texts.
pub open spec fn config_of(vars: Seq<Variable>) -> ConfigView {
    ConfigView {
        data_dir: text_of(vars, "FINBOX_DATA"@, "data"@),
        initial_capital: amount_of(vars, "INITIAL_CAPITAL"@, 200_000_000_000) as Decimal,
        watchlist: scheduler::watchlist_of(text_of(vars, "WATCHLIST"@, ""@)),
        candidate_count: count_of(vars, "CANDIDATE_COUNT"@, 5) as usize,
        collect_interval_seconds: count_of(vars, "COLLECT_INTERVAL_SECONDS"@, 60),
        ai_decision_interval_minutes: count_of(vars, "AI_DECISION_INTERVAL_MINUTES"@, 30),
        llm_base_url: text_of(vars, "LLM_BASE_URL"@, "https://api.deepseek.com"@),
        llm_api_key: text_of(vars, "LLM_API_KEY"@, ""@),
        llm_model: text_of(vars, "LLM_MODEL"@, "deepseek-chat"@),
        hithink_api_key: text_of(vars, "HITHINK_FINANCE_API_KEY"@, ""@),
        admin_key: text_of(vars, "ADMIN_KEY"@, ""@),
    }
}

fn look_up<'a>(vars: &'a Vec<Variable>, name: &str) -> (r: Option<&'a str>)
    ensures
        (match r {
            Some(v) => Some(v@),
            None => None,
        }) == value_of(vars@, name@),
{
    assert(vars@.skip(0) =~= vars@);
    for i in 0..vars.len()
        invariant
            value_of(vars@, name@) == value_of(vars@.skip(i as int), name@),
    {
        assert(vars@.skip(i as int)[0] == vars@[i as int]);
        assert(vars@.skip(i as int).skip(1) =~= vars@.skip(i + 1));
        if text_eq(vars[i].name.as_str(), name) {
            return Some(vars[i].value.as_str());
        }
    }
    None
}

/// The text under a name, or the default.
fn env_str(vars: &Vec<Variable>, name: &str, default: &str) -> (r: String)
    ensures
        r@ == text_of(vars@, name@, default@),
{
    match look_up(vars, name) {
        Some(v) => v.to_owned(),
        None => default.to_owned(),
    }
}

/// The amount under a name, or the default.
fn env_float(vars: &Vec<Variable>, name: &str, default: Decimal) -> (r: Decimal)
    ensures
        r == amount_of(vars@, name@, default as int),
{
    match look_up(vars, name) {
        Some(v) => match parse_decimal(v) {
            Some(d) => d,
            None => default,
        },
        None => default,
    }
}

/// The number under a name, or the default.
fn env_u64(vars: &Vec<Variable>, name: &str, default: u64) -> (r: u64)
    ensures
        r == count_of(vars@, name@, default),
{
    match look_up(vars, name) {
        Some(v) => match parse_u64(v) {
            Some(n) => n,
            None => default,
        },
        None => default,
    }
}

impl Default for Config {
    /// The configuration without any named texts.
    fn default() -> (r: Self)
        ensures
            r@ == config_of(Seq::empty()),
    {
        let r = Config::from_env(&Vec::new());
        r
    }
}

impl Config {
    /// The configuration of named texts.
    pub fn from_env(vars: &Vec<Variable>) -> (r: Self)
        ensures
            r@ == config_of(vars@),
    {
        Config {
            data_dir: env_str(vars, "FINBOX_DATA", "data"),
            initial_capital: env_float(vars, "INITIAL_CAPITAL", 200_000_000_000),
            watchlist: parse_watchlist(env_str(vars, "WATCHLIST", "").as_str()),
            candidate_count: env_u64(vars, "CANDIDATE_COUNT", 5) as usize,
            collect_interval_seconds: env_u64(vars, "COLLECT_INTERVAL_SECONDS", 60),
            ai_decision_interval_minutes: env_u64(vars, "AI_DECISION_INTERVAL_MINUTES", 30),
            llm_base_url: env_str(vars, "LLM_BASE_URL", "https://api.deepseek.com"),
            llm_api_key: env_str(vars, "LLM_API_KEY", ""),
            llm_model: env_str(vars, "LLM_MODEL", "deepseek-chat"),
            hithink_api_key: env_str(vars, "HITHINK_FINANCE_API_KEY", ""),
            admin_key: env_str(vars, "ADMIN_KEY", ""),
        }
    }
}

} // verus!
