//! What an upstream answer says of the health of the account that it came from.
use crate::clock::{clamped, plus};
use crate::headers::{fields, first_text, header_text};
use crate::models::Outcome;
use crate::text::{lower, trim, trimmed};
use http::HeaderMap;
use vstd::prelude::*;

verus! {

pub const RETRY_AFTER_MS_HEADER: &'static str = "retry-after-ms";

pub const RETRY_AFTER_HEADER: &'static str = "retry-after";

/// The two retry headers read as decimal numbers, in whole milliseconds: each
/// is there when its header, trimmed, is a finite number that is not negative.
#[derive(Clone, Copy, Debug, PartialEq, Eq, Structural)]
pub struct RetryNumbers {
    /// `retry-after-ms`.
    pub ms: Option<i64>,
    /// `retry-after`, times one thousand.
    pub secs_as_ms: Option<i64>,
}

/// What `httpdate::parse_http_date` reads from a text, in milliseconds since
/// the epoch.
pub uninterp spec fn http_date_ms(text: Seq<char>) -> Option<i64>;

/// `httpdate::parse_http_date`: the instant that a text names, if it is an HTTP
/// date, is a function of the text. Such dates lie from 1970 to 9999.
#[verifier::external_body]
fn read_http_date(text: &str) -> (r: Option<i64>)
    ensures
        r == http_date_ms(text@),
{
    let date = httpdate::parse_http_date(text).ok()?;
    let since = date.duration_since(std::time::UNIX_EPOCH).ok()?;
    Some(since.as_millis() as i64)
}

/// The deadline that a date names, if it lies ahead.
pub open spec fn date_deadline(date: Option<i64>, now: int) -> Option<i64> {
    match date {
        Some(at) if at > now => Some(at),
        _ => None,
    }
}

/// The deadline that the retry headers give: the milliseconds, else the seconds,
/// else a date that lies ahead.
pub open spec fn deadline(
    ms_text: Option<Seq<char>>,
    text: Option<Seq<char>>,
    numbers: RetryNumbers,
    now: int,
) -> Option<i64> {
    if ms_text is Some && numbers.ms is Some {
        Some(clamped(now + numbers.ms->0))
    } else if text is Some && numbers.secs_as_ms is Some {
        Some(clamped(now + numbers.secs_as_ms->0))
    } else if text is Some {
        date_deadline(http_date_ms(trimmed(text->0)), now)
    } else {
        None
    }
}

/// The deadline that the retry headers of `h` give.
pub open spec fn retry_deadline(h: HeaderMap, numbers: RetryNumbers, now: int) -> Option<i64> {
    deadline(
        first_text(fields(h), lower(RETRY_AFTER_MS_HEADER@)),
        first_text(fields(h), lower(RETRY_AFTER_HEADER@)),
        numbers,
        now,
    )
}

/// The deadline of a retry header that holds a date, once that was read.
pub fn deadline_from_date(date: Option<i64>, now_ms: i64) -> (r: Option<i64>)
    ensures
        r == date_deadline(date, now_ms as int),
{
    match date {
        Some(at) => if at > now_ms {
            Some(at)
        } else {
            None
        },
        None => None,
    }
}

/// The deadline that the retry headers give, as an absolute time.
pub fn parse_retry_after_headers(headers: &HeaderMap, numbers: &RetryNumbers, now_ms: i64) -> (r:
    Option<i64>)
    ensures
        r == retry_deadline(*headers, *numbers, now_ms as int),
{
    proof {
        reveal_strlit("retry-after-ms");
        reveal_strlit("retry-after");
    }
    if header_text(headers, RETRY_AFTER_MS_HEADER).is_some() {
        if let Some(ms) = numbers.ms {
            return Some(plus(now_ms, ms));
        }
    }
    match header_text(headers, RETRY_AFTER_HEADER) {
        Some(text) => {
            if let Some(ms) = numbers.secs_as_ms {
                return Some(plus(now_ms, ms));
            }
            deadline_from_date(read_http_date(trim(text.as_str()).as_str()), now_ms)
        },
        None => None,
    }
}

/// The outcome of an answer with the given status, where `until` is the deadline
/// that its headers give: 429 is quota, 401 and 403 are the credential, 5xx passes,
/// and any other status is a success.
pub open spec fn status_outcome(status: u16, until: Option<i64>, cooldown: int, now: int) -> Outcome {
    if status == 429 {
        Outcome::QuotaExhausted {
            until_ms: match until {
                Some(t) => t,
                None => clamped(now + cooldown),
            },
        }
    } else if status == 401 || status == 403 {
        Outcome::AuthFailed
    } else if 500 <= status && status <= 599 {
        Outcome::Transient
    } else {
        Outcome::Success
    }
}

/// The outcome of an answer, once its retry deadline is known.
pub fn outcome_of_status(status: u16, until: Option<i64>, default_cooldown_ms: i64, now_ms: i64) -> (r:
    Outcome)
    ensures
        r == status_outcome(status, until, default_cooldown_ms as int, now_ms as int),
{
    if status == 429 {
        Outcome::QuotaExhausted {
            until_ms: match until {
                Some(t) => t,
                None => plus(now_ms, default_cooldown_ms),
            },
        }
    } else if status == 401 || status == 403 {
        Outcome::AuthFailed
    } else if 500 <= status && status <= 599 {
        Outcome::Transient
    } else {
        Outcome::Success
    }
}

/// The outcome that status and headers of an answer show.
pub fn classify(
    status: u16,
    headers: &HeaderMap,
    numbers: &RetryNumbers,
    default_cooldown_ms: i64,
    now_ms: i64,
) -> (r: Outcome)
    ensures
        r == status_outcome(
            status,
            retry_deadline(*headers, *numbers, now_ms as int),
            default_cooldown_ms as int,
            now_ms as int,
        ),
{
    let until = if status == 429 {
        parse_retry_after_headers(headers, numbers, now_ms)
    } else {
        None
    };
    outcome_of_status(status, until, default_cooldown_ms, now_ms)
}

/// A deadline that a date gives lies ahead; one that a number gives is not
/// before the present.
pub proof fn law_deadline_is_ahead(
    ms_text: Option<Seq<char>>,
    text: Option<Seq<char>>,
    numbers: RetryNumbers,
    now: i64,
)
    requires
        numbers.ms matches Some(m) ==> m >= 0,
        numbers.secs_as_ms matches Some(m) ==> m >= 0,
    ensures
        deadline(ms_text, text, numbers, now as int) matches Some(at) ==> at >= now,
{
}

} // verus!
