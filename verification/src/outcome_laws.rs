//! What an upstream answer means for the account that it came from, said of the
//! status, the headers and the members of the error.
use crate::clock::{clamped, opt_secs_as_ms, secs_as_ms};
use crate::codex::{mentions_quota, names_quota, quota_words, CodexBackend};
use crate::copilot::CopilotBackend;
use crate::headers::{fields, is_ascii_text};
use crate::health::{http_date_ms, retry_deadline, status_outcome, RetryNumbers};
use crate::json::{parsed_json, JsonView};
use crate::models::Outcome;
use crate::provider::Backend;
use crate::text::{has_substring, lower, lower_char, occurs_at, trimmed};
use http::HeaderMap;
use vstd::prelude::*;
use vstd::utf8::encode_utf8;

verus! {

/// A sum of times is exact where it can be told, and stops at the ends where it
/// cannot.
pub proof fn law_times_stop_at_the_ends(i: int)
    ensures
        i64::MIN <= i <= i64::MAX ==> clamped(i) == i,
        i > i64::MAX ==> clamped(i) == i64::MAX,
        i < i64::MIN ==> clamped(i) == i64::MIN,
{
}

/// Seconds are told in milliseconds exactly, or not at all.
pub proof fn law_seconds_are_thousands(secs: i64)
    ensures
        secs_as_ms(secs as int) matches Some(t) ==> t == 1000 * secs,
        -9_223_372_036_854_775 <= secs <= 9_223_372_036_854_775 ==> secs_as_ms(secs as int) is Some,
        opt_secs_as_ms(Some(secs)) == secs_as_ms(secs as int),
        opt_secs_as_ms(None) is None,
{
}

/// The account cools until this time.
pub open spec fn cools_until(o: Outcome, at: int) -> bool {
    o matches Outcome::QuotaExhausted { until_ms } && until_ms == at
}

/// What a status alone says: 401 and 403 reject the credential, those from 500 to
/// 599 pass, and any other but 429 is a success.
pub open spec fn plain_status(status: u16) -> Outcome {
    if status == 401 || status == 403 {
        Outcome::AuthFailed
    } else if status / 100 == 5 {
        Outcome::Transient
    } else {
        Outcome::Success
    }
}

/// An answer 429 cools the account until the deadline of its headers, whatever that
/// is; only without one does it cool for the configured time from now on. No other
/// status cools the account.
pub proof fn law_quota_lasts_to_the_retry_deadline(
    status: u16,
    until: Option<i64>,
    cooldown: i64,
    now: i64,
)
    ensures
        ({
            let o = status_outcome(status, until, cooldown as int, now as int);
            &&& status == 429 ==> (until matches Some(t) ==> cools_until(o, t as int))
            &&& status == 429 && until is None && i64::MIN <= now + cooldown <= i64::MAX
                ==> cools_until(o, now + cooldown)
            &&& status == 429 && until is None && now + cooldown > i64::MAX ==> cools_until(
                o,
                i64::MAX as int,
            )
            &&& status != 429 ==> o == plain_status(status)
        }),
{
}

/// Copilot answers are told by status and headers alone, with the cooldown that is
/// configured for Copilot.
pub proof fn law_copilot_answer_is_told_by_its_status(
    b: CopilotBackend,
    status: u16,
    body: Seq<char>,
    until: Option<i64>,
    now: i64,
)
    ensures
        ({
            let o = b.outcome(status, body, until, now as int);
            &&& status == 429 ==> (until matches Some(t) ==> cools_until(o, t as int))
            &&& status == 429 && until is None && i64::MIN <= now + b.cooldown_ms <= i64::MAX
                ==> cools_until(o, now + b.cooldown_ms)
            &&& status != 429 ==> o == plain_status(status)
        }),
{
    law_quota_lasts_to_the_retry_deadline(status, until, b.cooldown_ms, now);
}

// ---------------------------------------------------------------------------
// Retry headers
// ---------------------------------------------------------------------------

/// The headers have a text under this name.
pub open spec fn has_text(h: HeaderMap, name: Seq<char>) -> bool {
    fields(h).contains_key(name) && fields(h)[name].len() > 0 && is_ascii_text(fields(h)[name][0])
}

/// The text that the headers have first under this name.
pub open spec fn text_under(h: HeaderMap, name: Seq<char>) -> Seq<char> {
    Seq::new(fields(h)[name][0].len(), |i: int| fields(h)[name][0][i] as char)
}

proof fn lemma_header_names()
    ensures
        lower("retry-after-ms"@) == "retry-after-ms"@,
        lower("retry-after"@) == "retry-after"@,
{
    reveal_strlit("retry-after-ms");
    reveal_strlit("retry-after");
    assert(lower("retry-after-ms"@) =~= "retry-after-ms"@);
    assert(lower("retry-after"@) =~= "retry-after"@);
}

/// The milliseconds of `retry-after-ms` count from now on, and come before what
/// `retry-after` says; the seconds of `retry-after` count from now on. A
/// `retry-after` that is no number is a date, which counts if it lies ahead. With
/// neither header there is no deadline.
pub proof fn law_retry_headers_give_the_deadline(h: HeaderMap, numbers: RetryNumbers, now: i64)
    ensures
        ({
            let ms = has_text(h, "retry-after-ms"@);
            let secs = has_text(h, "retry-after"@);
            let d = retry_deadline(h, numbers, now as int);
            &&& ms && numbers.ms is Some && i64::MIN <= now + numbers.ms->0 <= i64::MAX
                ==> (d matches Some(t) && t == now + numbers.ms->0)
            &&& ms && numbers.ms is Some && now + numbers.ms->0 > i64::MAX ==> d == Some(i64::MAX)
            &&& !(ms && numbers.ms is Some) && secs && numbers.secs_as_ms is Some && i64::MIN <= now
                + numbers.secs_as_ms->0 <= i64::MAX ==> (d matches Some(t) && t == now
                + numbers.secs_as_ms->0)
            &&& !(ms && numbers.ms is Some) && secs && numbers.secs_as_ms is Some && now
                + numbers.secs_as_ms->0 > i64::MAX ==> d == Some(i64::MAX)
            &&& !(ms && numbers.ms is Some) && secs && numbers.secs_as_ms is None ==> match http_date_ms(
                trimmed(text_under(h, "retry-after"@)),
            ) {
                Some(at) => if at > now {
                    d == Some(at)
                } else {
                    d is None
                },
                None => d is None,
            }
            &&& !(ms && numbers.ms is Some) && !secs ==> d is None
        }),
{
    lemma_header_names();
    if has_text(h, "retry-after"@) {
        assert(text_under(h, "retry-after"@) =~= crate::headers::ascii_chars(
            fields(h)["retry-after"@][0],
        ));
    }
}

// ---------------------------------------------------------------------------
// Codex errors
// ---------------------------------------------------------------------------

/// The value is an object with this text under the key.
pub open spec fn says(v: JsonView, key: Seq<char>, s: Seq<char>) -> bool {
    v matches JsonView::Object(m) && m.contains_key(key) && m[key] == JsonView::Text(s)
}

/// The value is an object with this whole number under the key.
pub open spec fn tells(v: JsonView, key: Seq<char>, n: i64) -> bool {
    v matches JsonView::Object(m) && m.contains_key(key) && (m[key] matches JsonView::Number(
        whole,
        _,
    ) && whole == Some(n))
}

/// The text is a document with this error.
pub open spec fn has_error(body: Seq<char>, error: JsonView) -> bool {
    parsed_json(encode_utf8(body)) matches Ok(JsonView::Object(m)) && m.contains_key("error"@)
        && m["error"@] == error
}

/// The words that mean that the quota is used up.
pub open spec fn is_quota_word(w: Seq<char>) -> bool {
    ||| w == "usage_limit_reached"@
    ||| w == "insufficient_quota"@
    ||| w == "usage_not_included"@
    ||| w == "freeusagelimiterror"@
    ||| w == "rate_limit"@
    ||| w == "too_many_requests"@
}

/// The text is the word, where capitals count as small letters.
pub open spec fn spells(s: Seq<char>, w: Seq<char>) -> bool {
    &&& s.len() == w.len()
    &&& forall|i: int| 0 <= i < s.len() ==> spells_char(#[trigger] s[i], w[i])
}

pub open spec fn spells_char(c: char, d: char) -> bool {
    if 'A' <= c && c <= 'Z' {
        d as int == c as int + 32
    } else {
        d == c
    }
}

/// The text has the word in it, where capitals count as small letters.
pub open spec fn spells_within(s: Seq<char>, w: Seq<char>) -> bool {
    exists|at: int|
        0 <= at <= s.len() - w.len() && spells(#[trigger] s.subrange(at, at + w.len()), w)
}

proof fn lemma_spells(s: Seq<char>, w: Seq<char>)
    ensures
        spells(s, w) <==> lower(s) == w,
{
    assert forall|c: char, d: char| #[trigger] spells_char(c, d) <==> lower_char(c) == d by {
        if 'A' <= c && c <= 'Z' {
            let n: u32 = (c as u32 + 32) as u32;
            assert(97 <= n <= 122);
            assert(lower_char(c) as int == n);
        }
    }
    if spells(s, w) {
        assert forall|i: int| 0 <= i < s.len() implies #[trigger] lower(s)[i] == w[i] by {
            assert(spells_char(s[i], w[i]));
        }
        assert(lower(s) =~= w);
    }
    if lower(s) == w {
        assert forall|i: int| 0 <= i < s.len() implies spells_char(#[trigger] s[i], w[i]) by {
            assert(lower(s)[i] == lower_char(s[i]));
        }
    }
}

proof fn lemma_quota_words(w: Seq<char>)
    ensures
        quota_words().contains(w) <==> is_quota_word(w),
        quota_words().len() == 6,
        forall|i: int| 0 <= i < 6 ==> is_quota_word(#[trigger] quota_words()[i]),
{
    let q = quota_words();
    assert(q[0] == "usage_limit_reached"@ && q[1] == "insufficient_quota"@ && q[2]
        == "usage_not_included"@ && q[3] == "freeusagelimiterror"@ && q[4] == "rate_limit"@ && q[5]
        == "too_many_requests"@);
    assert forall|i: int| 0 <= i < 6 implies is_quota_word(#[trigger] quota_words()[i]) by {
        if i == 0 {
        } else if i == 1 {
        } else if i == 2 {
        } else if i == 3 {
        } else if i == 4 {
        } else {
        }
    }
}

proof fn lemma_names(s: Seq<char>)
    ensures
        names_quota(Some(s)) <==> exists|w: Seq<char>| #[trigger] is_quota_word(w) && spells(s, w),
{
    lemma_quota_words(lower(s));
    lemma_spells(s, lower(s));
    if exists|w: Seq<char>| #[trigger] is_quota_word(w) && spells(s, w) {
        let w = choose|w: Seq<char>| #[trigger] is_quota_word(w) && spells(s, w);
        lemma_spells(s, w);
    }
}

proof fn lemma_within(s: Seq<char>, w: Seq<char>)
    ensures
        has_substring(lower(s), w) <==> spells_within(s, w),
{
    let l = lower(s);
    if has_substring(l, w) {
        let at = choose|at: int| occurs_at(l, w, at);
        let part = s.subrange(at, at + w.len());
        assert(lower(part) =~= w) by {
            assert forall|i: int| 0 <= i < w.len() implies #[trigger] lower(part)[i] == w[i] by {
                assert(l[at + i] == w[i]);
            }
        }
        lemma_spells(part, w);
    }
    if spells_within(s, w) {
        let at = choose|at: int|
            0 <= at <= s.len() - w.len() && spells(#[trigger] s.subrange(at, at + w.len()), w);
        let part = s.subrange(at, at + w.len());
        lemma_spells(part, w);
        assert(l.subrange(at, at + w.len()) =~= lower(part));
        assert(occurs_at(l, w, at));
    }
}

proof fn lemma_mentions(s: Seq<char>)
    ensures
        mentions_quota(s) <==> exists|w: Seq<char>| #[trigger]
            is_quota_word(w) && spells_within(s, w),
{
    if mentions_quota(s) {
        let i = choose|i: int|
            0 <= i < quota_words().len() && has_substring(lower(s), #[trigger] quota_words()[i]);
        lemma_quota_words(s);
        lemma_within(s, quota_words()[i]);
        assert(is_quota_word(quota_words()[i]));
    }
    if exists|w: Seq<char>| #[trigger] is_quota_word(w) && spells_within(s, w) {
        let w = choose|w: Seq<char>| #[trigger] is_quota_word(w) && spells_within(s, w);
        lemma_quota_words(w);
        lemma_within(s, w);
        let i = choose|i: int| 0 <= i < quota_words().len() && quota_words()[i] == w;
        assert(has_substring(lower(s), quota_words()[i]));
    }
}

/// The error says of itself that the server is overloaded.
pub open spec fn is_overload(error: JsonView) -> bool {
    says(error, "type"@, "server_is_overloaded"@) || says(error, "code"@, "server_is_overloaded"@)
}

/// The error names a word for quota as its type or its code.
pub open spec fn is_quota_error(error: JsonView) -> bool {
    exists|s: Seq<char>, w: Seq<char>| #[trigger]
        spells(s, w) && is_quota_word(w) && (says(error, "type"@, s) || says(error, "code"@, s))
}

/// The error is that of a usage limit.
pub open spec fn is_usage_limit(error: JsonView) -> bool {
    says(error, "type"@, "usage_limit_reached"@) || says(error, "code"@, "usage_limit_reached"@)
}

proof fn lemma_quota_error(error: JsonView)
    ensures
        is_quota_error(error) <==> names_quota(
            crate::json::text_in(error.get("type"@)),
        ) || names_quota(crate::json::text_in(error.get("code"@))),
{
    let kind = crate::json::text_in(error.get("type"@));
    let code = crate::json::text_in(error.get("code"@));
    if let Some(s) = kind {
        lemma_names(s);
        if names_quota(kind) {
            let w = choose|w: Seq<char>| #[trigger] is_quota_word(w) && spells(s, w);
            assert(spells(s, w) && says(error, "type"@, s));
        }
    }
    if let Some(s) = code {
        lemma_names(s);
        if names_quota(code) {
            let w = choose|w: Seq<char>| #[trigger] is_quota_word(w) && spells(s, w);
            assert(spells(s, w) && says(error, "code"@, s));
        }
    }
    if is_quota_error(error) {
        let (s, w) = choose|s: Seq<char>, w: Seq<char>| #[trigger]
            spells(s, w) && is_quota_word(w) && (says(error, "type"@, s) || says(
                error,
                "code"@,
                s,
            ));
        assert(is_quota_word(w) && spells(s, w));
    }
}

/// A Codex answer whose error says that the server is overloaded passes, whatever
/// its status.
pub proof fn law_codex_overload_passes(
    b: CodexBackend,
    status: u16,
    body: Seq<char>,
    error: JsonView,
    until: Option<i64>,
    now: i64,
)
    requires
        has_error(body, error),
        is_overload(error),
    ensures
        b.outcome(status, body, until, now as int) == Outcome::Transient,
{
}

/// A Codex answer cools the account if its status is 429, if its error names a
/// word for quota, or if it has no error and its text mentions one; not if the
/// server is overloaded. Else it means what its status says.
pub proof fn law_codex_quota_is_recognised(
    b: CodexBackend,
    status: u16,
    body: Seq<char>,
    error: JsonView,
    until: Option<i64>,
    now: i64,
)
    ensures
        ({
            let o = b.outcome(status, body, until, now as int);
            &&& has_error(body, error) && !is_overload(error) && (status == 429 || is_quota_error(
                error,
            )) ==> o is QuotaExhausted
            &&& has_error(body, error) && !is_overload(error) && status != 429 && !is_quota_error(
                error,
            ) ==> o == plain_status(status)
            &&& (forall|e: JsonView| !#[trigger] has_error(body, e)) && (status == 429 || exists|
                w: Seq<char>,
            | #[trigger]
                is_quota_word(w) && spells_within(body, w)) ==> o is QuotaExhausted
            &&& (forall|e: JsonView| !#[trigger] has_error(body, e)) && status != 429 && !(exists|
                w: Seq<char>,
            | #[trigger]
                is_quota_word(w) && spells_within(body, w)) ==> o == plain_status(status)
        }),
{
    lemma_mentions(body);
    lemma_quota_error(error);
    let found = crate::json::get_in(crate::json::document(encode_utf8(body)), "error"@);
    if let Some(e) = found {
        assert(has_error(body, e));
    }
}

/// A Codex account out of quota cools until the later of the deadlines that lie
/// ahead: that of the retry headers and, for a usage limit, the time at which
/// the error says that it resets. Where none lies ahead it cools for the configured
/// time.
pub proof fn law_codex_cools_to_the_later_deadline(
    b: CodexBackend,
    status: u16,
    body: Seq<char>,
    error: JsonView,
    until: Option<i64>,
    resets_at: i64,
    now: i64,
)
    requires
        has_error(body, error),
        !is_overload(error),
        status == 429 || is_quota_error(error),
        i64::MIN <= now + b.cooldown_ms <= i64::MAX,
    ensures
        ({
            let o = b.outcome(status, body, until, now as int);
            let named = is_usage_limit(error) && tells(error, "resets_at"@, resets_at) && now
                < resets_at * 1000 <= i64::MAX;
            let told = until is Some && until->0 > now;
            &&& told && named ==> cools_until(o, if until->0 >= resets_at * 1000 {
                until->0 as int
            } else {
                resets_at * 1000
            })
            &&& named && !told ==> cools_until(o, resets_at * 1000)
            &&& told && (!is_usage_limit(error) || tells(error, "resets_at"@, resets_at)) && !named
                ==> cools_until(o, until->0 as int)
            &&& !told && (!is_usage_limit(error) || tells(error, "resets_at"@, resets_at)) && !named
                ==> cools_until(o, now + b.cooldown_ms)
            &&& told && (forall|n: i64| !#[trigger] tells(error, "resets_at"@, n)) ==> cools_until(
                o,
                until->0 as int,
            )
            &&& !told && (forall|n: i64| !#[trigger] tells(error, "resets_at"@, n)) ==> cools_until(
                o,
                now + b.cooldown_ms,
            )
        }),
{
    lemma_quota_error(error);
    let whole = crate::json::whole_in(error.get("resets_at"@));
    if let Some(n) = whole {
        assert(tells(error, "resets_at"@, n));
    }
    assert(has_error(body, error));
}

/// A Codex answer without an error that is out of quota cools the account until the
/// retry deadline that lies ahead, else for the configured time.
pub proof fn law_codex_answer_without_error_cools(
    b: CodexBackend,
    status: u16,
    body: Seq<char>,
    until: Option<i64>,
    now: i64,
)
    requires
        forall|e: JsonView| !#[trigger] has_error(body, e),
        b.outcome(status, body, until, now as int) is QuotaExhausted,
        i64::MIN <= now + b.cooldown_ms <= i64::MAX,
    ensures
        cools_until(
            b.outcome(status, body, until, now as int),
            if until is Some && until->0 > now {
                until->0 as int
            } else {
                now + b.cooldown_ms
            },
        ),
{
    let found = crate::json::get_in(crate::json::document(encode_utf8(body)), "error"@);
    if let Some(e) = found {
        assert(has_error(body, e));
    }
}

} // verus!
