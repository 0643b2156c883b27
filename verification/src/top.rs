//! What the terminal dashboard shows.
use crate::clock::{clamped, minus, secs_as_ms, seconds_to_ms};
use crate::models::{AccountStatus, BackendId};
use crate::monitor::{MonitorAccount, MonitorAccountView};
use crate::resets::{RateLimit, SnapshotView, Window};
use crate::text::{
    chars_of, dec, dec_i64, digit_char, is_control, is_control_char, join, join2, join3, joined, opt_str_view,
    opt_view, replace, replaced, same, trim_end_matches, trim_end_of, views,
};
use vstd::prelude::*;
use vstd::string::*;

verus! {

/// Usage that is older than this is stale.
pub const STALE_MS: i64 = 180_000;

// ---------------------------------------------------------------------------
// Texts
// ---------------------------------------------------------------------------

/// The text with a space in place of each control character.
pub open spec fn displayed(s: Seq<char>) -> Seq<char> {
    s.map_values(|c: char| if is_control_char(c) { ' ' } else { c })
}

/// The text with a space in place of each control character.
pub fn display_text(value: &str) -> (r: String)
    ensures
        r@ == displayed(value@),
{
    let cs = chars_of(value);
    let mut out = String::new();
    for i in 0..cs.len()
        invariant
            cs@ == value@,
            out@ == displayed(value@.take(i as int)),
    {
        let c = if is_control(cs[i]) {
            ' '
        } else {
            cs[i]
        };
        out.push(c);
        assert(displayed(value@.take(i + 1)) =~= displayed(value@.take(i as int)).push(c));
    }
    assert(value@.take(value@.len() as int) =~= value@);
    out
}

/// No control character is shown, and nothing else is changed.
pub proof fn law_display_has_no_controls(s: Seq<char>, i: int)
    requires
        0 <= i < s.len(),
    ensures
        displayed(s).len() == s.len(),
        !is_control_char(displayed(s)[i]),
        !is_control_char(s[i]) ==> displayed(s)[i] == s[i],
{
}

/// The whole seconds of a span; none where it is negative.
pub open spec fn whole_seconds(ms: int) -> int {
    if ms <= 0 {
        0
    } else {
        ms / 1000
    }
}

/// A span in words: hours and minutes, minutes, or seconds.
pub open spec fn span_text(secs: int) -> Seq<char> {
    if secs >= 3600 {
        dec(secs / 3600) + "h"@ + (dec(secs % 3600 / 60) + "m"@)
    } else if secs >= 60 {
        dec(secs / 60) + "m"@
    } else {
        dec(secs) + "s"@
    }
}

/// The time until a deadline in words.
pub fn time_until(deadline: i64, now: i64) -> (r: String)
    ensures
        r@ == span_text(whole_seconds(clamped(deadline - now) as int)),
{
    let left = minus(deadline, now);
    let secs: i64 = if left <= 0 {
        0
    } else {
        left / 1000
    };
    if secs >= 3600 {
        let minutes = join2(dec_i64(secs % 3600 / 60).as_str(), "m");
        join3(dec_i64(secs / 3600).as_str(), "h", minutes.as_str())
    } else if secs >= 60 {
        join2(dec_i64(secs / 60).as_str(), "m")
    } else {
        join2(dec_i64(secs).as_str(), "s")
    }
}

/// The state of an account in words.
pub open spec fn status_words(status: AccountStatus, reset_at: i64, now: i64) -> Seq<char> {
    match status {
        AccountStatus::Healthy => "healthy"@,
        AccountStatus::Cooling => "cooling "@ + span_text(
            whole_seconds(clamped(reset_at - now) as int),
        ),
        AccountStatus::AuthError => "auth error"@,
        AccountStatus::Disabled => "disabled"@,
    }
}

/// The state of an account in words.
pub fn status_text(account: &MonitorAccount, now_ms: i64) -> (r: String)
    ensures
        r@ == status_words(account.status, account.reset_at, now_ms),
{
    match account.status {
        AccountStatus::Healthy => "healthy".to_owned(),
        AccountStatus::Cooling => join2("cooling ", time_until(account.reset_at, now_ms).as_str()),
        AccountStatus::AuthError => "auth error".to_owned(),
        AccountStatus::Disabled => "disabled".to_owned(),
    }
}

/// The number of banked resets in words.
pub fn credits(account: &MonitorAccount) -> (r: String)
    ensures
        r@ == (match account.quota {
            Some(q) => dec(q.available_resets as int),
            None => "\u{2014}"@,
        }),
{
    match &account.quota {
        Some(q) => dec_i64(q.available_resets),
        None => "\u{2014}".to_owned(),
    }
}

/// How a window is rendered: the percentages used and left, in whole percent.
#[derive(Debug)]
pub struct PercentText {
    pub used: String,
    pub left: String,
}

/// How the windows of an account are rendered.
#[derive(Debug)]
pub struct QuotaText {
    pub primary: Option<PercentText>,
    pub secondary: Option<PercentText>,
}

/// The length of a window in words.
pub open spec fn window_length(secs: Option<i64>) -> Seq<char> {
    match secs {
        Some(s) => if s >= 86_400 {
            dec(s as int / 86_400) + "d"@
        } else if s >= 0 {
            dec(s as int / 3_600) + "h"@
        } else {
            dec(-((-s) / 3_600)) + "h"@
        },
        None => "?"@,
    }
}

fn length_text(secs: Option<i64>) -> (r: String)
    ensures
        r@ == window_length(secs),
{
    match secs {
        Some(s) => if s >= 86_400 {
            join2(dec_i64(s / 86_400).as_str(), "d")
        } else if s >= 0 {
            join2(dec_i64(s / 3_600).as_str(), "h")
        } else {
            let wide: i128 = -(s as i128);
            let hours: i64 = (wide / 3_600) as i64;
            join2(dec_i64(-hours).as_str(), "h")
        },
        None => "?".to_owned(),
    }
}

/// A window in words: its length and what is left of it.
pub open spec fn window_words(w: Option<Window>, text: Option<PercentText>) -> Seq<Seq<char>> {
    match (w, text) {
        (Some(w), Some(t)) => seq![
            window_length(w.limit_window_seconds) + " "@ + (t.left@ + "%"@),
        ],
        _ => Seq::empty(),
    }
}

/// The usage is stale.
pub open spec fn is_stale(s: SnapshotView, now: int) -> bool {
    clamped(now - s.fetched_at_ms) > STALE_MS
}

/// The quota of an account in words.
pub open spec fn quota_words(account: MonitorAccountView, texts: QuotaText, now: int) -> Seq<char> {
    if account.backend == BackendId::Copilot {
        "unknown"@
    } else {
        match account.quota {
            None => "waiting\u{2026}"@,
            Some(s) => match s.rate_limit {
                None => "unavailable"@,
                Some(l) => {
                    let parts = window_words(l.primary_window, texts.primary) + window_words(
                        l.secondary_window,
                        texts.secondary,
                    );
                    if parts.len() == 0 {
                        "unavailable"@
                    } else if is_stale(s, now) {
                        joined(parts, " \u{b7} "@) + " \u{b7} stale"@
                    } else {
                        joined(parts, " \u{b7} "@)
                    }
                },
            },
        }
    }
}

fn push_window(parts: &mut Vec<String>, w: &Option<Window>, text: &Option<PercentText>)
    ensures
        views(final(parts)@) == views(old(parts)@) + window_words(*w, *text),
{
    if let (Some(w), Some(t)) = (w, text) {
        let left = join2(t.left.as_str(), "%");
        let part = join3(length_text(w.limit_window_seconds).as_str(), " ", left.as_str());
        parts.push(part);
    }
    assert(views(parts@) =~= views(old(parts)@) + window_words(*w, *text));
}

/// The quota of an account in words, where `texts` renders its windows.
pub fn quota(account: &MonitorAccount, texts: &QuotaText, now_ms: i64) -> (r: String)
    ensures
        r@ == quota_words(account@, *texts, now_ms as int),
{
    if account.backend == BackendId::Copilot {
        return "unknown".to_owned();
    }
    let s = match &account.quota {
        Some(s) => s,
        None => return "waiting\u{2026}".to_owned(),
    };
    let limit = match &s.rate_limit {
        Some(l) => l,
        None => return "unavailable".to_owned(),
    };
    let mut parts: Vec<String> = Vec::new();
    assert(views(parts@) =~= Seq::empty());
    push_window(&mut parts, &limit.primary_window, &texts.primary);
    push_window(&mut parts, &limit.secondary_window, &texts.secondary);
    proof {
        let p = window_words(limit.primary_window, texts.primary);
        assert(Seq::<Seq<char>>::empty() + p =~= p);
    }
    if parts.len() == 0 {
        return "unavailable".to_owned();
    }
    let mut out = join(&parts, " \u{b7} ");
    if minus(now_ms, s.fetched_at_ms) > STALE_MS {
        out.append(" \u{b7} stale");
    }
    out
}

/// A window in full: what is used and left of it, and when it renews.
pub open spec fn window_detail(name: Seq<char>, w: Option<Window>, text: Option<PercentText>, now: int) -> Seq<
    Seq<char>,
> {
    match (w, text) {
        (Some(w), Some(t)) => {
            let renews = match w.reset_at {
                Some(secs) => match secs_as_ms(secs as int) {
                    Some(at) => "renews in "@ + span_text(whole_seconds(clamped(at - now) as int)),
                    None => "reset unknown"@,
                },
                None => "reset unknown"@,
            };
            seq![
                name + " "@ + (t.used@ + "% used / "@ + (t.left@ + "% left \u{b7} "@ + renews)),
            ]
        },
        _ => Seq::empty(),
    }
}

fn push_detail(
    parts: &mut Vec<String>,
    name: &str,
    w: &Option<Window>,
    text: &Option<PercentText>,
    now_ms: i64,
)
    ensures
        views(final(parts)@) == views(old(parts)@) + window_detail(name@, *w, *text, now_ms as int),
{
    if let (Some(w), Some(t)) = (w, text) {
        let at: Option<i64> = match w.reset_at {
            Some(secs) => seconds_to_ms(secs),
            None => None,
        };
        let renews = match at {
            Some(at) => join2("renews in ", time_until(at, now_ms).as_str()),
            None => "reset unknown".to_owned(),
        };
        let left = join3(t.left.as_str(), "% left \u{b7} ", renews.as_str());
        let used = join3(t.used.as_str(), "% used / ", left.as_str());
        parts.push(join3(name, " ", used.as_str()));
    }
    assert(views(parts@) =~= views(old(parts)@) + window_detail(
        name@,
        *w,
        *text,
        now_ms as int,
    ));
}

/// The parts of the details of an account.
pub open spec fn detail_parts(account: MonitorAccountView, texts: QuotaText, now: int) -> Seq<Seq<char>> {
    let head = displayed(account.label) + ": "@ + (dec(account.month.attempts as int)
        + " month attempts \u{b7} "@ + (dec(account.month.unknown as int) + " unknown"@));
    match account.quota {
        None => seq![head],
        Some(s) => {
            let checked = "quota checked "@ + span_text(
                whole_seconds(clamped(now - s.fetched_at_ms) as int),
            ) + " ago"@;
            match s.rate_limit {
                None => seq![head, checked],
                Some(l) => seq![head, checked] + window_detail(
                    "primary"@,
                    l.primary_window,
                    texts.primary,
                    now,
                ) + window_detail("secondary"@, l.secondary_window, texts.secondary, now),
            }
        },
    }
}

/// The details of an account in words, where `texts` renders its windows.
pub fn account_detail(account: &MonitorAccount, texts: &QuotaText, now_ms: i64) -> (r: String)
    ensures
        r@ == joined(detail_parts(account@, *texts, now_ms as int), "  \u{b7}  "@),
{
    let unknown = join2(dec_i64(account.month.unknown).as_str(), " unknown");
    let counts = join3(
        dec_i64(account.month.attempts).as_str(),
        " month attempts \u{b7} ",
        unknown.as_str(),
    );
    let label = display_text(account.label.as_str());
    let mut parts: Vec<String> = Vec::new();
    parts.push(join3(label.as_str(), ": ", counts.as_str()));
    let ghost head = parts@[0]@;
    if let Some(s) = &account.quota {
        parts.push(
            join3("quota checked ", time_until(now_ms, s.fetched_at_ms).as_str(), " ago"),
        );
        assert(views(parts@) =~= seq![head, parts@[1]@]);
        if let Some(l) = &s.rate_limit {
            push_detail(&mut parts, "primary", &l.primary_window, &texts.primary, now_ms);
            push_detail(&mut parts, "secondary", &l.secondary_window, &texts.secondary, now_ms);
        }
    } else {
        assert(views(parts@) =~= seq![head]);
    }
    assert(views(parts@) =~= detail_parts(account@, *texts, now_ms as int));
    join(&parts, "  \u{b7}  ")
}

/// The first and the last instant that `chrono` represents.
pub const FIRST_INSTANT_MS: i64 = -8_334_601_228_800_000;

pub const LAST_INSTANT_MS: i64 = 8_210_266_876_799_999;

/// A number below one hundred in two digits.
pub open spec fn two_digits(n: int) -> Seq<char> {
    seq![digit_char((n / 10) as nat), digit_char((n % 10) as nat)]
}

/// The hours, minutes and seconds of a second of the day.
pub open spec fn clock_text(second: int) -> Seq<char> {
    two_digits(second / 3600) + seq![':'] + two_digits(second % 3600 / 60) + seq![':'] + two_digits(
        second % 60,
    )
}

/// The time of day of an instant in UTC, if the instant can be represented.
pub open spec fn utc_time_of_day(ms: i64) -> Option<Seq<char>> {
    if FIRST_INSTANT_MS <= ms <= LAST_INSTANT_MS {
        Some(clock_text(ms as int / 1000 % 86_400))
    } else {
        None
    }
}

/// `chrono::DateTime::from_timestamp_millis` and `DateTime::format` with hours,
/// minutes and seconds: two digits each, in UTC, for the instants that `chrono`
/// represents.
#[verifier::external_body]
fn read_time_of_day(ms: i64, pattern: &str) -> (r: Option<String>)
    requires
        pattern@ == "%H:%M:%S"@,
    ensures
        opt_view(r) == utc_time_of_day(ms),
{
    chrono::DateTime::from_timestamp_millis(ms).map(|t| t.format(pattern).to_string())
}

/// The time of day of a request.
pub fn time_of_day(ms: i64) -> (r: String)
    ensures
        r@ == (match utc_time_of_day(ms) {
            Some(t) => t,
            None => "?"@,
        }),
{
    match read_time_of_day(ms, "%H:%M:%S") {
        Some(t) => t,
        None => "?".to_owned(),
    }
}

/// A text that may be missing, as it is shown.
pub fn text_or_dash(s: Option<&str>) -> (r: String)
    ensures
        r@ == (match s {
            Some(t) => t@,
            None => "\u{2014}"@,
        }),
{
    match s {
        Some(t) => t.to_owned(),
        None => "\u{2014}".to_owned(),
    }
}

// ---------------------------------------------------------------------------
// Colours
// ---------------------------------------------------------------------------

/// How something is coloured.
#[derive(Clone, Copy, Debug, PartialEq, Eq, Structural)]
pub enum Tone {
    Green,
    Yellow,
    Red,
    Muted,
}

/// The most used of the windows that are there, in whole percent.
pub open spec fn most_used(l: RateLimit) -> Option<i64> {
    match (l.primary_window, l.secondary_window) {
        (Some(a), Some(b)) => Some(
            if a.used_percent >= b.used_percent {
                a.used_percent
            } else {
                b.used_percent
            },
        ),
        (Some(a), None) => Some(a.used_percent),
        (None, Some(b)) => Some(b.used_percent),
        (None, None) => None,
    }
}

/// The colour of a quota: by the window with the least left, green above thirty
/// percent, yellow above ten, red below or where the account is blocked. Quota
/// that is missing or stale, and that of other backends, is muted.
pub open spec fn quota_tone(account: MonitorAccountView, now: int) -> Tone {
    if account.backend != BackendId::Codex || account.quota is None || is_stale(
        account.quota->0,
        now,
    ) || account.quota->0.rate_limit is None {
        Tone::Muted
    } else {
        let l = account.quota->0.rate_limit->0;
        if l.allowed == Some(false) || l.limit_reached == Some(true) {
            Tone::Red
        } else {
            match most_used(l) {
                Some(used) => if used >= 90 {
                    Tone::Red
                } else if used >= 70 {
                    Tone::Yellow
                } else {
                    Tone::Green
                },
                None => Tone::Muted,
            }
        }
    }
}

/// The colour of the quota of an account.
pub fn quota_color(account: &MonitorAccount, now_ms: i64) -> (r: Tone)
    ensures
        r == quota_tone(account@, now_ms as int),
{
    if account.backend != BackendId::Codex {
        return Tone::Muted;
    }
    let s = match &account.quota {
        Some(s) => s,
        None => return Tone::Muted,
    };
    if minus(now_ms, s.fetched_at_ms) > STALE_MS {
        return Tone::Muted;
    }
    let l = match &s.rate_limit {
        Some(l) => l,
        None => return Tone::Muted,
    };
    if let Some(false) = l.allowed {
        return Tone::Red;
    }
    if let Some(true) = l.limit_reached {
        return Tone::Red;
    }
    let used: i64 = match (&l.primary_window, &l.secondary_window) {
        (Some(a), Some(b)) => if a.used_percent >= b.used_percent {
            a.used_percent
        } else {
            b.used_percent
        },
        (Some(a), None) => a.used_percent,
        (None, Some(b)) => b.used_percent,
        (None, None) => return Tone::Muted,
    };
    if used >= 90 {
        Tone::Red
    } else if used >= 70 {
        Tone::Yellow
    } else {
        Tone::Green
    }
}

/// A window that is used up further never makes the colour of a fresh quota look
/// better.
pub proof fn law_less_quota_never_looks_better(l: RateLimit, now: int, a: MonitorAccountView, s: SnapshotView, w: Window, used: i64)
    requires
        l.primary_window == Some(w),
        w.used_percent <= used,
    ensures
        ({
            let worse = RateLimit {
                primary_window: Some(Window { used_percent: used, ..w }),
                ..l
            };
            let before = quota_tone(
                MonitorAccountView {
                    quota: Some(SnapshotView { rate_limit: Some(l), ..s }),
                    ..a
                },
                now,
            );
            let after = quota_tone(
                MonitorAccountView {
                    quota: Some(SnapshotView { rate_limit: Some(worse), ..s }),
                    ..a
                },
                now,
            );
            &&& before == Tone::Red ==> after == Tone::Red
            &&& before == Tone::Yellow ==> after != Tone::Green
            &&& before == Tone::Muted <==> after == Tone::Muted
        }),
{
}

/// The colour of the state of an account.
pub fn status_color(status: AccountStatus) -> (r: Tone)
    ensures
        r == (match status {
            AccountStatus::Healthy => Tone::Green,
            AccountStatus::Cooling => Tone::Yellow,
            AccountStatus::AuthError => Tone::Red,
            AccountStatus::Disabled => Tone::Muted,
        }),
{
    match status {
        AccountStatus::Healthy => Tone::Green,
        AccountStatus::Cooling => Tone::Yellow,
        AccountStatus::AuthError => Tone::Red,
        AccountStatus::Disabled => Tone::Muted,
    }
}

/// The colour of the outcome of a request.
pub fn outcome_color(status: u16) -> (r: Tone)
    ensures
        r == (if status >= 500 {
            Tone::Red
        } else if status >= 400 {
            Tone::Yellow
        } else {
            Tone::Green
        }),
{
    if status >= 500 {
        Tone::Red
    } else if status >= 400 {
        Tone::Yellow
    } else {
        Tone::Green
    }
}

// ---------------------------------------------------------------------------
// The accounts as a whole
// ---------------------------------------------------------------------------

/// All requests in flight.
pub open spec fn all_inflight(s: Seq<MonitorAccount>) -> int
    decreases s.len(),
{
    if s.len() == 0 {
        0
    } else {
        all_inflight(s.drop_last()) + s.last().inflight
    }
}

/// All requests in flight.
pub fn live_requests(accounts: &Vec<MonitorAccount>) -> (r: u128)
    ensures
        r == all_inflight(accounts@),
{
    let mut n: u128 = 0;
    for i in 0..accounts.len()
        invariant
            accounts.len() <= usize::MAX,
            n == all_inflight(accounts@.take(i as int)),
            n <= 0x1_0000_0000 * i,
    {
        assert(accounts@.take(i + 1).drop_last() =~= accounts@.take(i as int));
        assert(i + 1 <= 0x1_0000_0000_0000_0000);
        n = n + accounts[i].inflight as u128;
    }
    assert(accounts@.take(accounts@.len() as int) =~= accounts@);
    n
}

/// The accounts that are healthy.
pub open spec fn healthy_of(s: Seq<MonitorAccount>) -> int
    decreases s.len(),
{
    if s.len() == 0 {
        0
    } else {
        healthy_of(s.drop_last()) + (if s.last().status == AccountStatus::Healthy {
            1int
        } else {
            0int
        })
    }
}

/// How many accounts are healthy.
pub fn healthy_accounts(accounts: &Vec<MonitorAccount>) -> (r: usize)
    ensures
        r == healthy_of(accounts@),
{
    let mut n: usize = 0;
    for i in 0..accounts.len()
        invariant
            n == healthy_of(accounts@.take(i as int)),
            n <= i,
    {
        assert(accounts@.take(i + 1).drop_last() =~= accounts@.take(i as int));
        if accounts[i].status == AccountStatus::Healthy {
            n = n + 1;
        }
    }
    assert(accounts@.take(accounts@.len() as int) =~= accounts@);
    n
}

/// A count as a bar: never below zero.
pub fn bar(count: i64) -> (r: u64)
    ensures
        r == (if count < 0 {
            0
        } else {
            count as int
        }),
{
    if count < 0 {
        0
    } else {
        count as u64
    }
}

// ---------------------------------------------------------------------------
// The selected row
// ---------------------------------------------------------------------------

/// The row that is selected.
#[derive(Clone, Copy, Debug, PartialEq, Eq, Structural)]
pub struct Cursor {
    pub selected: usize,
}

/// The row nearest to the wanted one, of so many.
pub open spec fn nearest_row(wanted: int, count: int) -> int {
    let last = if count == 0 {
        0
    } else {
        count - 1
    };
    if wanted < 0 {
        0
    } else if wanted > last {
        last
    } else {
        wanted
    }
}

impl Cursor {
    fn go(&mut self, wanted: i128, count: usize)
        ensures
            final(self).selected == nearest_row(wanted as int, count as int),
    {
        let last: usize = if count == 0 {
            0
        } else {
            count - 1
        };
        self.selected = if wanted < 0 {
            0
        } else if wanted > last as i128 {
            last
        } else {
            wanted as usize
        };
    }

    /// One row down.
    pub fn down(&mut self, count: usize)
        ensures
            final(self).selected == nearest_row(old(self).selected + 1, count as int),
    {
        self.go(self.selected as i128 + 1, count);
    }

    /// One row up.
    pub fn up(&mut self)
        ensures
            final(self).selected == (if old(self).selected == 0 {
                0
            } else {
                old(self).selected - 1
            }),
    {
        if self.selected > 0 {
            self.selected = self.selected - 1;
        }
    }

    /// So many rows down, or up where that is negative.
    pub fn page(&mut self, delta: i32, count: usize)
        ensures
            final(self).selected == nearest_row(old(self).selected + delta, count as int),
    {
        self.go(self.selected as i128 + delta as i128, count);
    }

    /// The first row.
    pub fn home(&mut self)
        ensures
            final(self).selected == 0,
    {
        self.selected = 0;
    }

    /// The last row.
    pub fn end(&mut self, count: usize)
        ensures
            final(self).selected == nearest_row(count as int, count as int),
    {
        self.go(count as i128, count);
    }

    /// Back to a row that is there.
    pub fn keep_within(&mut self, count: usize)
        ensures
            final(self).selected == nearest_row(old(self).selected as int, count as int),
    {
        self.go(self.selected as i128, count);
    }
}

/// The selected row is there whenever there are rows.
pub proof fn law_selected_row_exists(wanted: int, count: int)
    requires
        count > 0,
    ensures
        0 <= nearest_row(wanted, count) < count,
{
}

// ---------------------------------------------------------------------------
// The server
// ---------------------------------------------------------------------------

/// The address of the server: the one asked for, without trailing slashes, else
/// that of the configured listener, with a wildcard address replaced by the
/// local one.
pub open spec fn url_of(asked: Option<Seq<char>>, bind: Seq<char>) -> Seq<char> {
    match asked {
        Some(u) => trim_end_of(u, '/'),
        None => "http://"@ + replaced(
            replaced(bind, "0.0.0.0"@, "127.0.0.1"@),
            "[::]"@,
            "[::1]"@,
        ),
    }
}

/// The address of the server.
pub fn server_url(asked: Option<&str>, bind: &str) -> (r: String)
    ensures
        r@ == url_of(opt_str_view(asked), bind@),
{
    match asked {
        Some(u) => trim_end_matches(u, '/'),
        None => {
            proof {
                reveal_strlit("0.0.0.0");
                reveal_strlit("[::]");
            }
            let local = replace(bind, "0.0.0.0", "127.0.0.1");
            join2("http://", replace(local.as_str(), "[::]", "[::1]").as_str())
        },
    }
}

/// The parts of an address.
#[derive(Debug)]
pub struct UrlParts {
    pub scheme: String,
    pub has_host: bool,
    pub username: String,
    pub has_password: bool,
    pub path: String,
    pub has_query: bool,
    pub has_fragment: bool,
}

/// What `reqwest::Url::parse` makes of a text: the scheme, whether there is a
/// host, the user name, whether there is a password, the path, and whether there
/// are a query and a fragment.
pub uninterp spec fn parsed_url(text: Seq<char>) -> Option<
    (Seq<char>, bool, Seq<char>, bool, Seq<char>, bool, bool),
>;

pub open spec fn parts_view(p: Option<UrlParts>) -> Option<
    (Seq<char>, bool, Seq<char>, bool, Seq<char>, bool, bool),
> {
    match p {
        Some(p) => Some(
            (
                p.scheme@,
                p.has_host,
                p.username@,
                p.has_password,
                p.path@,
                p.has_query,
                p.has_fragment,
            ),
        ),
        None => None,
    }
}

/// `reqwest::Url::parse` and the accessors of `Url`: the parts of an address are
/// a function of its text.
#[verifier::external_body]
fn read_url(text: &str) -> (r: Option<UrlParts>)
    ensures
        parts_view(r) == parsed_url(text@),
{
    let url = reqwest::Url::parse(text).ok()?;
    Some(UrlParts {
        scheme: url.scheme().to_owned(),
        has_host: url.host_str().is_some(),
        username: url.username().to_owned(),
        has_password: url.password().is_some(),
        path: url.path().to_owned(),
        has_query: url.query().is_some(),
        has_fragment: url.fragment().is_some(),
    })
}

/// The parts are those of an HTTP origin: no credentials, path, query or
/// fragment.
pub open spec fn is_origin(p: (Seq<char>, bool, Seq<char>, bool, Seq<char>, bool, bool)) -> bool {
    &&& p.0 == "http"@ || p.0 == "https"@
    &&& p.1
    &&& p.2.len() == 0
    &&& !p.3
    &&& p.4.len() == 0 || p.4 == "/"@
    &&& !p.5
    &&& !p.6
}

/// Checks the parts of an address that was read.
pub fn check_parts(parts: &Option<UrlParts>) -> (r: Result<(), String>)
    ensures
        match parts_view(*parts) {
            None => r matches Err(e) && e@ == "invalid server URL"@,
            Some(p) => if is_origin(p) {
                r is Ok
            } else {
                r matches Err(e) && e@
                    == "server URL must be an HTTP(S) origin without credentials, path, or query"@
            },
        },
{
    let p = match parts {
        Some(p) => p,
        None => return Err("invalid server URL".to_owned()),
    };
    let scheme = same(p.scheme.as_str(), "http") || same(p.scheme.as_str(), "https");
    let path = p.path.as_str().is_empty() || same(p.path.as_str(), "/");
    if scheme && p.has_host && p.username.as_str().is_empty() && !p.has_password && path
        && !p.has_query && !p.has_fragment {
        Ok(())
    } else {
        Err("server URL must be an HTTP(S) origin without credentials, path, or query".to_owned())
    }
}

/// Checks the address of a server.
pub fn check_url(url: &str) -> (r: Result<(), String>)
    ensures
        match parsed_url(url@) {
            None => r matches Err(e) && e@ == "invalid server URL"@,
            Some(p) => if is_origin(p) {
                r is Ok
            } else {
                r matches Err(e) && e@
                    == "server URL must be an HTTP(S) origin without credentials, path, or query"@
            },
        },
{
    let parts = read_url(url);
    check_parts(&parts)
}

/// The text, unless it is empty.
pub open spec fn nonempty(s: Option<Seq<char>>) -> Option<Seq<char>> {
    match s {
        Some(t) if t.len() > 0 => Some(t),
        _ => None,
    }
}

/// The token for the server: with an explicit address only that of the
/// environment; else the configured one, else the stored one.
pub open spec fn token_of(
    explicit: bool,
    env: Option<Seq<char>>,
    configured: Option<Seq<char>>,
    stored: Option<Seq<char>>,
) -> Option<Seq<char>> {
    if explicit {
        nonempty(env)
    } else if nonempty(configured) is Some {
        configured
    } else {
        stored
    }
}

/// The token for the server.
pub fn admin_token(
    explicit: bool,
    env: Option<&str>,
    configured: Option<&str>,
    stored: Option<&str>,
) -> (r: Result<String, String>)
    ensures
        match token_of(
            explicit,
            opt_str_view(env),
            opt_str_view(configured),
            opt_str_view(stored),
        ) {
            Some(t) => r matches Ok(x) && x@ == t,
            None => r matches Err(e) && e@
                == "admin token unavailable; start underclass serve or set UNDERCLASS_UI_TOKEN"@,
        },
{
    let found: Option<&str> = if explicit {
        match env {
            Some(t) => if t.is_empty() {
                None
            } else {
                Some(t)
            },
            None => None,
        }
    } else {
        let own = match configured {
            Some(t) => if t.is_empty() {
                None
            } else {
                Some(t)
            },
            None => None,
        };
        match own {
            Some(t) => Some(t),
            None => stored,
        }
    };
    match found {
        Some(t) => Ok(t.to_owned()),
        None => Err(
            "admin token unavailable; start underclass serve or set UNDERCLASS_UI_TOKEN".to_owned(),
        ),
    }
}

/// Where the dashboard reads the state of the pool.
#[derive(Clone, Copy, Debug, PartialEq, Eq, Structural)]
pub enum Source {
    /// The socket beside the database.
    LocalSocket,
    /// The socket of the system service.
    SystemSocket,
    /// The server, with its token.
    Server,
}

/// Where the dashboard reads: with an explicit address from that server; else
/// from the local socket if it answers, from that of the system service if that
/// answers, and from the server otherwise.
pub fn source(explicit: bool, local_answers: bool, system_answers: bool) -> (r: Source)
    ensures
        r == (if explicit {
            Source::Server
        } else if local_answers {
            Source::LocalSocket
        } else if system_answers {
            Source::SystemSocket
        } else {
            Source::Server
        }),
{
    if explicit {
        Source::Server
    } else if local_answers {
        Source::LocalSocket
    } else if system_answers {
        Source::SystemSocket
    } else {
        Source::Server
    }
}

} // verus!
