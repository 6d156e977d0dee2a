//! Laws of the data service: when a request is repeated, how long it waits, which bars are
//! fetched, and what the configuration says where nothing is set.

use vstd::prelude::*;

use crate::calendar;
use crate::collector;
use crate::collector::BarSync;
use crate::config;
use crate::config::Variable;
use crate::sdk;
use crate::sdk::{Error, Outcome};
use crate::text;

verus! {

/// The wait before an attempt doubles from half a second to four seconds, and stays there;
/// before the first attempt there is none.
pub proof fn waits_double(attempt: int)
    ensures
        attempt <= 0 ==> sdk::backoff_of(attempt) == 0,
        sdk::backoff_of(1) == 500,
        1 <= attempt <= 3 ==> sdk::backoff_of(attempt + 1) == 2 * sdk::backoff_of(attempt),
        attempt >= 4 ==> sdk::backoff_of(attempt + 1) == sdk::backoff_of(attempt),
{
}

/// An attempt is repeated exactly where its error is one that may pass, and an attempt that
/// brought the data is none to repeat.
pub proof fn what_may_pass_is_repeated(outcome: Outcome, e: Error, url: Seq<char>)
    requires
        !sdk::is_success(outcome),
        sdk::is_error_of(e, outcome, url),
    ensures
        sdk::is_passing(outcome) == e.may_pass(),
{
}

/// The network, a status of 429 or from 500 on, and codes of 4001 or from 5000 on may pass; a
/// missing key, a reply that cannot be read and any other status or code may not.
pub proof fn some_errors_may_pass(e: Error)
    ensures
        e.may_pass() <==> match e {
            Error::Http(_) | Error::Stalled(_) => true,
            Error::Status { status, .. } => status == 429 || status >= 500,
            Error::Api { code, .. } => code == 4001 || code >= 5000,
            _ => false,
        },
{
}

/// The data have come exactly with a code of zero and data beside it.
pub proof fn data_come_with_code_zero(outcome: Outcome)
    ensures
        sdk::is_success(outcome) <==> match outcome {
            Outcome::Envelope { code, has_data, .. } => code == 0 && has_data,
            _ => false,
        },
        sdk::is_success(outcome) ==> !sdk::is_passing(outcome),
{
}

/// A date counts as missed exactly where it is after the latest bar.
pub proof fn later_dates_are_missed(dates: Seq<Seq<char>>, d: Seq<char>, date: Seq<char>)
    ensures
        calendar::count_after(Seq::empty(), date) == 0,
        text::text_less(date, d) ==> calendar::count_after(dates.push(d), date)
            == calendar::count_after(dates, date) + 1,
        !text::text_less(date, d) ==> calendar::count_after(dates.push(d), date)
            == calendar::count_after(dates, date),
{
    assert(dates.push(d).drop_last() =~= dates);
}

/// In a calendar by date, the days after a date are those behind the last one that is not.
pub proof fn missed_days_are_behind_the_latest(dates: Seq<Seq<char>>, date: Seq<char>)
    requires
        forall|i: int, j: int|
            0 <= i < j < dates.len() ==> text::text_less(#[trigger] dates[i], #[trigger] dates[j]),
    ensures
        calendar::count_after(dates, date) == dates.len() - 1 - calendar::last_not_after(
            dates,
            date,
            dates.len() as int,
        ),
    decreases dates.len(),
{
    if dates.len() > 0 {
        let rest = dates.drop_last();
        let n = dates.len() - 1;
        assert forall|i: int, j: int| 0 <= i < j < rest.len() implies text::text_less(
            #[trigger] rest[i],
            #[trigger] rest[j],
        ) by {
            assert(rest[i] == dates[i] && rest[j] == dates[j]);
        }
        missed_days_are_behind_the_latest(rest, date);
        lemma_same_place(dates, date, n);
        if !text::text_less(date, dates[n]) {
            lemma_none_after(dates, date, n);
        }
    }
}

proof fn lemma_same_place(dates: Seq<Seq<char>>, date: Seq<char>, n: int)
    requires
        0 <= n < dates.len(),
    ensures
        calendar::last_not_after(dates.drop_last(), date, n) == calendar::last_not_after(
            dates,
            date,
            n,
        ),
    decreases n,
{
    if n > 0 {
        assert(dates.drop_last()[n - 1] == dates[n - 1]);
        lemma_same_place(dates, date, n - 1);
    }
}

proof fn lemma_none_after(dates: Seq<Seq<char>>, date: Seq<char>, n: int)
    requires
        0 <= n < dates.len(),
        !text::text_less(date, dates[n]),
        forall|i: int, j: int|
            0 <= i < j < dates.len() ==> text::text_less(#[trigger] dates[i], #[trigger] dates[j]),
    ensures
        calendar::count_after(dates.take(n), date) == 0,
        n == dates.len() - 1 ==> calendar::count_after(dates.drop_last(), date) == 0,
    decreases n,
{
    if n > 0 {
        text::text_order_is_total(date, dates[n]);
        text::text_order_is_total(date, dates[n - 1]);
        assert(text::text_less(dates[n - 1], dates[n]));
        if text::text_less(date, dates[n - 1]) {
            text::text_order_is_transitive(date, dates[n - 1], dates[n]);
        }
        lemma_none_after(dates, date, n - 1);
        assert(dates.take(n).drop_last() =~= dates.take(n - 1));
    }
    if n == dates.len() - 1 {
        assert(dates.drop_last() =~= dates.take(n));
    }
}

/// All bars are fetched where there are none yet, or where more than seven trading days are
/// missing; otherwise only the last ones are.
pub proof fn many_missing_days_are_fetched_in_full(last: Option<Seq<char>>, dates: Seq<Seq<char>>)
    ensures
        collector::sync_of(last, dates) == BarSync::Full <==> last is None || calendar::count_after(
            dates,
            text::replaced(last->0, '-', ""@),
        ) >= 8,
        last is None ==> collector::sync_of(last, dates) == BarSync::Full,
{
}

/// The text under a name is that of the first variable with it; without one there is none.
pub proof fn variables_are_found(vars: Seq<Variable>, name: Seq<char>, k: int)
    requires
        0 <= k < vars.len(),
        vars[k].name@ == name,
        forall|j: int| 0 <= j < k ==> (#[trigger] vars[j]).name@ != name,
    ensures
        config::value_of(vars, name) == Some(vars[k].value@),
    decreases vars.len(),
{
    if k > 0 {
        let rest = vars.skip(1);
        assert(vars[0].name@ != name);
        assert(rest[k - 1] == vars[k]);
        assert forall|j: int| 0 <= j < k - 1 implies (#[trigger] rest[j]).name@ != name by {
            assert(rest[j] == vars[j + 1]);
        }
        variables_are_found(rest, name, k - 1);
    }
}

/// Where nothing is set, an account starts with 200,000 yuan, five candidates are picked, the
/// market is collected every 60 seconds and the model asked every 30 minutes.
pub proof fn the_configuration_has_defaults(vars: Seq<Variable>)
    ensures
        ({
            let c = config::config_of(vars);
            &&& config::value_of(vars, "INITIAL_CAPITAL"@) is None ==> c.initial_capital == 200_000
                * 1_000_000
            &&& config::value_of(vars, "CANDIDATE_COUNT"@) is None ==> c.candidate_count == 5
            &&& config::value_of(vars, "COLLECT_INTERVAL_SECONDS"@) is None
                ==> c.collect_interval_seconds == 60
            &&& config::value_of(vars, "AI_DECISION_INTERVAL_MINUTES"@) is None
                ==> c.ai_decision_interval_minutes == 30
            &&& config::value_of(vars, "FINBOX_DATA"@) is None ==> c.data_dir == "data"@
            &&& config::value_of(vars, "LLM_API_KEY"@) is None ==> c.llm_api_key == ""@
            &&& config::value_of(vars, "ADMIN_KEY"@) is None ==> c.admin_key == ""@
            &&& config::value_of(vars, "LLM_API_KEY"@) matches Some(k) ==> c.llm_api_key == k
            &&& config::value_of(vars, "LLM_MODEL"@) matches Some(m) ==> c.llm_model == m
            &&& config::value_of(vars, "ADMIN_KEY"@) matches Some(k) ==> c.admin_key == k
            &&& config::value_of(vars, "HITHINK_FINANCE_API_KEY"@) matches Some(k)
                ==> c.hithink_api_key == k
        }),
{
}

/// A refusal by status is an error of that status, one by the service an error of its code, and
/// a code of zero without data, or a reply that cannot be read, an error of reading.
pub proof fn errors_say_what_happened(outcome: Outcome, e: Error, url: Seq<char>)
    requires
        !sdk::is_success(outcome),
        sdk::is_error_of(e, outcome, url),
    ensures
        outcome matches Outcome::Refused(s) ==> (e matches Error::Status { status, .. } && status
            == s),
        outcome is Unsent || outcome is Unreceived ==> e is Http,
        outcome is Unreadable ==> e is Parse,
        outcome matches Outcome::Envelope { code, .. } ==> if code == 0 {
            e is Parse
        } else {
            e.code() == Some(code)
        },
{
}

} // verus!
