//! The client of the data service: errors, retries, and what is downloaded.

use vstd::prelude::*;

use crate::text;
use crate::text::{push_int, strip_trailing};

verus! {

/// What can go wrong with a request.
#[derive(Debug)]
pub enum Error {
    MissingApiKey,
    /// The network failed.
    Http(String),
    /// The status of the response is not one of success.
    Status { status: u16, url: String },
    /// The response could not be read.
    Parse(String),
    /// A local file could not be written.
    Io(String),
    /// No data came for so many seconds.
    Stalled(u64),
    /// The service refused the request.
    Api { code: i32, message: String, rid: String },
}

impl Error {
    pub open spec fn code(self) -> Option<i32> {
        match self {
            Error::Api { code, .. } => Some(code),
            _ => None,
        }
    }

    /// Failures of the network, stalled downloads, limited rates and failures of the service
    /// may pass.
    pub open spec fn may_pass(self) -> bool {
        match self {
            Error::Http(_) => true,
            Error::Stalled(_) => true,
            Error::Api { code, .. } => code == 4001 || code >= 5000,
            Error::Status { status, .. } => status >= 500 || status == 429,
            _ => false,
        }
    }

    /// What the user reads.
    pub open spec fn text(self) -> Seq<char> {
        match self {
            Error::MissingApiKey => "缺少 API Key，请设置 HITHINK_FINANCE_API_KEY"@,
            Error::Http(s) => "网络错误: "@ + s@,
            Error::Status { status, url } => "HTTP 状态错误 "@ + text::int_text(status as int)
                + ": "@ + url@,
            Error::Parse(s) => "响应解析失败: "@ + s@,
            Error::Io(s) => "IO 错误: "@ + s@,
            Error::Stalled(n) => "下载停滞: 超过 "@ + text::int_text(n as int)
                + " 秒未收到数据"@,
            Error::Api { code, message, rid } => "API 错误 code="@ + text::int_text(code as int)
                + ": "@ + message@ + " (request_id="@ + rid@ + ")"@,
        }
    }

    /// The code with which the service refused the request.
    pub fn api_code(&self) -> (r: Option<i32>)
        ensures
            r == self.code(),
    {
        match self {
            Error::Api { code, .. } => Some(*code),
            _ => None,
        }
    }

    /// Whether the request may be repeated.
    pub fn is_retryable(&self) -> (r: bool)
        ensures
            r == self.may_pass(),
    {
        match self {
            Error::Http(_) => true,
            Error::Stalled(_) => true,
            Error::Api { code, .. } => *code == 4001 || *code >= 5000,
            Error::Status { status, .. } => *status >= 500 || *status == 429,
            _ => false,
        }
    }

    /// What the user reads.
    pub fn message(&self) -> (r: String)
        ensures
            r@ == self.text(),
    {
        let mut out = String::new();
        match self {
            Error::MissingApiKey => out.append("缺少 API Key，请设置 HITHINK_FINANCE_API_KEY"),
            Error::Http(s) => {
                out.append("网络错误: ");
                out.append(s.as_str());
            },
            Error::Status { status, url } => {
                out.append("HTTP 状态错误 ");
                push_int(&mut out, *status as i128);
                out.append(": ");
                out.append(url.as_str());
            },
            Error::Parse(s) => {
                out.append("响应解析失败: ");
                out.append(s.as_str());
            },
            Error::Io(s) => {
                out.append("IO 错误: ");
                out.append(s.as_str());
            },
            Error::Stalled(n) => {
                out.append("下载停滞: 超过 ");
                push_int(&mut out, *n as i128);
                out.append(" 秒未收到数据");
            },
            Error::Api { code, message, rid } => {
                out.append("API 错误 code=");
                push_int(&mut out, *code as i128);
                out.append(": ");
                out.append(message.as_str());
                out.append(" (request_id=");
                out.append(rid.as_str());
                out.append(")");
            },
        }
        assert(out@ =~= self.text());
        out
    }
}

/// A refusal of the service.
pub fn api_error(code: i32, message: &str, rid: &str) -> (r: Error)
    ensures
        r matches Error::Api { code: c, message: m, rid: i } && c == code && m@ == message@ && i@
            == rid@,
{
    Error::Api { code, message: message.to_owned(), rid: rid.to_owned() }
}

/// Attempts after the first one.
pub const MAX_RETRIES: u32 = 3;

/// Attempts at a download after the first one.
pub const DOWNLOAD_RETRIES: u32 = 2;

/// The wait before the second attempt.
pub const INITIAL_BACKOFF_MS: u64 = 500;

/// The wait before attempt `n`, in milliseconds: it doubles from one attempt to the next, up
/// to eight times the first wait.
pub open spec fn backoff_of(attempt: int) -> int {
    if attempt <= 0 {
        0
    } else if attempt == 1 {
        500
    } else if attempt == 2 {
        1_000
    } else if attempt == 3 {
        2_000
    } else {
        4_000
    }
}

/// The wait before attempt `n`, in milliseconds.
pub fn backoff_ms(attempt: u32) -> (r: u64)
    ensures
        r == backoff_of(attempt as int),
{
    if attempt == 0 {
        0
    } else if attempt == 1 {
        INITIAL_BACKOFF_MS
    } else if attempt == 2 {
        2 * INITIAL_BACKOFF_MS
    } else if attempt == 3 {
        4 * INITIAL_BACKOFF_MS
    } else {
        8 * INITIAL_BACKOFF_MS
    }
}

/// What came of an attempt.
#[derive(Debug)]
pub enum Outcome {
    /// The request could not be sent, or no response came.
    Unsent(String),
    /// The body of the response could not be received.
    Unreceived(String),
    /// A response with a status that is not one of success.
    Refused(u16),
    /// A body that is not what the service sends.
    Unreadable(String),
    /// What the service sent: its code, whether there are data, and what it says.
    Envelope { code: i32, has_data: bool, message: Option<String>, request_id: Option<String> },
}

/// What to do after an attempt.
#[derive(Debug)]
pub enum Next {
    /// The data are there.
    Done,
    /// Try again after so many milliseconds.
    Retry(u64),
    Fail(Error),
}

pub open spec fn or_blank(s: Option<String>) -> Seq<char> {
    match s {
        Some(v) => v@,
        None => Seq::empty(),
    }
}

/// Whether an error is what an attempt that did not succeed amounts to.
pub open spec fn is_error_of(e: Error, outcome: Outcome, url: Seq<char>) -> bool {
    match outcome {
        Outcome::Unsent(s) => e matches Error::Http(m) && m@ == s@,
        Outcome::Unreceived(s) => e matches Error::Http(m) && m@ == s@,
        Outcome::Refused(status) => e matches Error::Status { status: t, url: u } && t == status
            && u@ == url,
        Outcome::Unreadable(s) => e matches Error::Parse(m) && m@ == s@,
        Outcome::Envelope { code, has_data, message, request_id } => if code == 0 {
            e matches Error::Parse(m) && m@ == "code=0 但 data 缺失"@
        } else {
            e matches Error::Api { code: c, message: m, rid } && c == code && m@ == or_blank(message)
                && rid@ == or_blank(request_id)
        },
    }
}

/// Whether an attempt brought the data.
pub open spec fn is_success(outcome: Outcome) -> bool {
    outcome matches Outcome::Envelope { code, has_data, .. } && code == 0 && has_data
}

/// Whether an attempt may be repeated: failures of the network, limited rates and failures of
/// the service are; a body that cannot be read is not.
pub open spec fn is_passing(outcome: Outcome) -> bool {
    match outcome {
        Outcome::Unsent(_) => true,
        Outcome::Unreceived(_) => true,
        Outcome::Refused(status) => status >= 500 || status == 429,
        Outcome::Unreadable(_) => false,
        Outcome::Envelope { code, .. } => code == 4001 || code >= 5000,
    }
}

fn error_of(outcome: Outcome, url: &str) -> (r: Error)
    requires
        !is_success(outcome),
    ensures
        is_error_of(r, outcome, url@),
{
    match outcome {
        Outcome::Unsent(s) => Error::Http(s),
        Outcome::Unreceived(s) => Error::Http(s),
        Outcome::Refused(status) => Error::Status { status, url: url.to_owned() },
        Outcome::Unreadable(s) => Error::Parse(s),
        Outcome::Envelope { code, has_data, message, request_id } => {
            if code == 0 {
                Error::Parse("code=0 但 data 缺失".to_owned())
            } else {
                let m = match message {
                    Some(v) => v,
                    None => String::new(),
                };
                let i = match request_id {
                    Some(v) => v,
                    None => String::new(),
                };
                assert(m@ =~= or_blank(message));
                assert(i@ =~= or_blank(request_id));
                Error::Api { code, message: m, rid: i }
            }
        },
    }
}

/// What to do after attempt number `attempt`, counted from 0: what may pass is tried again
/// up to three times.
pub fn after_attempt(attempt: u32, outcome: Outcome, url: &str) -> (r: Next)
    ensures
        is_success(outcome) <==> r is Done,
        !is_success(outcome) && is_passing(outcome) && attempt < MAX_RETRIES <==> r is Retry,
        r matches Next::Retry(ms) ==> ms == backoff_of(attempt + 1),
        r matches Next::Fail(e) ==> is_error_of(e, outcome, url@),
{
    let done = match &outcome {
        Outcome::Envelope { code, has_data, .. } => *code == 0 && *has_data,
        _ => false,
    };
    if done {
        return Next::Done;
    }
    let passing = match &outcome {
        Outcome::Unsent(_) | Outcome::Unreceived(_) => true,
        Outcome::Refused(status) => *status >= 500 || *status == 429,
        Outcome::Envelope { code, .. } => *code == 4001 || *code >= 5000,
        _ => false,
    };
    if passing && attempt < MAX_RETRIES {
        return Next::Retry(backoff_ms(attempt + 1));
    }
    Next::Fail(error_of(outcome, url))
}

/// What to do after an attempt at a download failed: try again after so many milliseconds,
/// where the error may pass and this was not the third attempt.
pub fn after_download(attempt: u32, e: &Error) -> (r: Option<u64>)
    ensures
        match r {
            Some(ms) => e.may_pass() && attempt < DOWNLOAD_RETRIES && ms == backoff_of(
                attempt + 1,
            ),
            None => !e.may_pass() || attempt >= DOWNLOAD_RETRIES,
        },
{
    if e.is_retryable() && attempt < DOWNLOAD_RETRIES {
        Some(backoff_ms(attempt + 1))
    } else {
        None
    }
}

/// Whether a download is complete: all that was announced has come.
pub fn is_complete(received: u64, expected: Option<u64>) -> (r: bool)
    ensures
        r == (expected matches Some(total) && received >= total),
{
    match expected {
        Some(total) => received >= total,
        None => false,
    }
}

/// How long a request has waited once it was tried again `n` times, in milliseconds.
pub open spec fn waited(n: nat) -> int
    decreases n,
{
    if n == 0 {
        0
    } else {
        waited((n - 1) as nat) + backoff_of(n as int)
    }
}

/// However often a request is tried again, its waits come to no more than three and a half
/// seconds, and each of them is longer than the one before.
pub proof fn retries_are_bounded(n: nat)
    requires
        n <= MAX_RETRIES,
    ensures
        0 <= waited(n) <= 3_500,
        n > 1 ==> backoff_of(n - 1) < backoff_of(n as int),
{
    reveal_with_fuel(waited, 4);
}

/// The address of the service without separators at its end.
pub fn trim_base_url(url: &str) -> (r: String)
    ensures
        r@ == text::without_trailing(url@, '/'),
{
    strip_trailing(url, '/')
}

/// The address of an endpoint.
pub fn endpoint_url(base_url: &str, path: &str) -> (r: String)
    ensures
        r@ == base_url@ + path@,
{
    let mut out = base_url.to_owned();
    out.append(path);
    out
}

/// How prices are adjusted.
#[derive(Debug, Clone, Copy, PartialEq, Eq, Structural)]
pub enum Adjust {
    /// As traded.
    Unadjusted,
    Forward,
    Backward,
}

impl Adjust {
    pub open spec fn text(self) -> Seq<char> {
        match self {
            Adjust::Unadjusted => "none"@,
            Adjust::Forward => "forward"@,
            Adjust::Backward => "backward"@,
        }
    }

    pub fn as_str(self) -> (r: &'static str)
        ensures
            r@ == self.text(),
    {
        match self {
            Adjust::Unadjusted => "none",
            Adjust::Forward => "forward",
            Adjust::Backward => "backward",
        }
    }
}

impl Default for Adjust {
    fn default() -> (r: Self)
        ensures
            r == Adjust::Forward,
    {
        Adjust::Forward
    }
}

/// The type of a fund: over the counter, on an exchange, or of real estate.
#[derive(Debug, Clone, Copy, PartialEq, Eq, Structural)]
pub enum FundType {
    Otc,
    Exchange,
    Reits,
}

impl FundType {
    pub open spec fn text(self) -> Seq<char> {
        match self {
            FundType::Otc => "otc"@,
            FundType::Exchange => "exchange"@,
            FundType::Reits => "reits"@,
        }
    }

    pub fn as_str(self) -> (r: &'static str)
        ensures
            r@ == self.text(),
    {
        match self {
            FundType::Otc => "otc",
            FundType::Exchange => "exchange",
            FundType::Reits => "reits",
        }
    }
}

/// A file with the data of the whole market.
#[derive(Debug, Clone, Copy, PartialEq, Eq, Structural)]
pub enum DumpKind {
    /// Ten years of daily bars.
    DailyK,
    /// Ten trading days of daily bars.
    DailyK10d,
    /// Corporate actions.
    AdjustmentFactors,
}

impl DumpKind {
    pub open spec fn path_text(self) -> Seq<char> {
        match self {
            DumpKind::DailyK => "/api/dump/market-dumps/daily-k/download-url"@,
            DumpKind::DailyK10d => "/api/dump/market-dumps/daily-k-10d/download-url"@,
            DumpKind::AdjustmentFactors => "/api/dump/market-dumps/adjustment-factors/download-url"@,
        }
    }

    pub open spec fn file_text(self) -> Seq<char> {
        match self {
            DumpKind::DailyK => "daily-k-full.parquet"@,
            DumpKind::DailyK10d => "daily-k-10d.parquet"@,
            DumpKind::AdjustmentFactors => "adjustment-factors.parquet"@,
        }
    }

    /// Where the address of the file is asked for.
    pub fn path(self) -> (r: &'static str)
        ensures
            r@ == self.path_text(),
    {
        match self {
            DumpKind::DailyK => "/api/dump/market-dumps/daily-k/download-url",
            DumpKind::DailyK10d => "/api/dump/market-dumps/daily-k-10d/download-url",
            DumpKind::AdjustmentFactors => "/api/dump/market-dumps/adjustment-factors/download-url",
        }
    }

    /// The name under which the file is stored.
    pub fn default_filename(self) -> (r: &'static str)
        ensures
            r@ == self.file_text(),
    {
        match self {
            DumpKind::DailyK => "daily-k-full.parquet",
            DumpKind::DailyK10d => "daily-k-10d.parquet",
            DumpKind::AdjustmentFactors => "adjustment-factors.parquet",
        }
    }
}

/// The address of a file, for a few minutes.
#[derive(Debug)]
pub struct DownloadUrl {
    pub presigned_url: String,
    pub presigned_url_expires_at: String,
}

/// A security.
#[derive(Debug)]
pub struct TickerItem {
    /// The full code, such as `600519.SH`.
    pub thscode: String,
    /// The bare code, such as `600519`.
    pub ticker: String,
    pub name: String,
    pub exchange: Option<String>,
    pub asset_type: String,
    pub currency: String,
}

/// A page of securities.
#[derive(Debug)]
pub struct TickerData {
    pub timestamp: i64,
    pub item: Vec<TickerItem>,
}

} // verus!
