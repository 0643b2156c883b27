//! The state of the pool as the terminal dashboard shows it.
use crate::models::{AccountStatus, BackendId, RequestLogEntry, MAX_CLOCK_MS};
use crate::pool::{
    binding_views, lemma_account_map, unique_ids, AccountState, BindingView, PoolCore, PoolView,
};
use crate::proxy::RequestLog;
use crate::resets::{opt_snapshot, ManagerView, ResetManager, SnapshotView, UsageSnapshot};
use crate::store::UsageSummary;
use crate::text::{
    below, is_below, law_order_total, law_order_transitive, opt_view, same,
};
use vstd::prelude::*;

verus! {

/// How many of the latest requests are shown.
pub const RECENT_REQUESTS: usize = 20;

/// Totals of upstream attempts.
#[derive(Clone, Copy, Debug, PartialEq, Eq, Structural)]
pub struct Counters {
    pub attempts: i64,
    pub unknown: i64,
    pub input_tokens: i64,
    pub output_tokens: i64,
}

pub open spec fn no_counts() -> Counters {
    Counters { attempts: 0, unknown: 0, input_tokens: 0, output_tokens: 0 }
}

impl Default for Counters {
    /// No attempts.
    fn default() -> (r: Self)
        ensures
            r == no_counts(),
    {
        Counters { attempts: 0, unknown: 0, input_tokens: 0, output_tokens: 0 }
    }
}

impl Counters {
    pub open spec fn of(s: UsageSummary) -> Counters {
        Counters {
            attempts: s.requests,
            unknown: s.unknown_requests,
            input_tokens: s.input_tokens,
            output_tokens: s.output_tokens,
        }
    }

    /// The totals of a group of attempts.
    pub fn from_summary(s: &UsageSummary) -> (r: Counters)
        ensures
            r == Counters::of(*s),
    {
        Counters {
            attempts: s.requests,
            unknown: s.unknown_requests,
            input_tokens: s.input_tokens,
            output_tokens: s.output_tokens,
        }
    }
}

/// An account as it is shown.
#[derive(Debug)]
pub struct MonitorAccount {
    pub id: String,
    pub label: String,
    pub backend: BackendId,
    pub status: AccountStatus,
    pub reset_at: i64,
    pub inflight: u32,
    pub sticky_sessions: usize,
    pub month: Counters,
    pub quota: Option<UsageSnapshot>,
}

pub struct MonitorAccountView {
    pub id: Seq<char>,
    pub label: Seq<char>,
    pub backend: BackendId,
    pub status: AccountStatus,
    pub reset_at: i64,
    pub inflight: u32,
    pub sticky_sessions: int,
    pub month: Counters,
    pub quota: Option<SnapshotView>,
}

impl View for MonitorAccount {
    type V = MonitorAccountView;

    open spec fn view(&self) -> MonitorAccountView {
        MonitorAccountView {
            id: self.id@,
            label: self.label@,
            backend: self.backend,
            status: self.status,
            reset_at: self.reset_at,
            inflight: self.inflight,
            sticky_sessions: self.sticky_sessions as int,
            month: self.month,
            quota: opt_snapshot(self.quota),
        }
    }
}

pub open spec fn account_views(s: Seq<MonitorAccount>) -> Seq<MonitorAccountView> {
    s.map_values(|a: MonitorAccount| a@)
}

/// A request as it is shown: without ids, sessions and bodies.
#[derive(Debug)]
pub struct MonitorRequest {
    pub ts: i64,
    pub model: String,
    pub backend: Option<String>,
    pub label: Option<String>,
    pub status: u16,
    pub duration_ms: u64,
}

/// The state of the pool as it is shown.
#[derive(Debug)]
pub struct MonitorSnapshot {
    pub now_ms: i64,
    pub month_start_ms: i64,
    pub accounts: Vec<MonitorAccount>,
    pub month: Counters,
    pub last_minute: Counters,
    pub minute_bins: Vec<i64>,
    pub recent: Vec<MonitorRequest>,
}

// ---------------------------------------------------------------------------
// The month
// ---------------------------------------------------------------------------

/// The instant with the given day and time of day in the month of another, in
/// UTC, as `chrono` tells it.
pub uninterp spec fn utc_in_month(ms: i64, day: u32, hour: u32, minute: u32, second: u32) -> i64;

/// The first instant of the month of an instant, in UTC.
pub open spec fn utc_month_start(ms: i64) -> i64 {
    utc_in_month(ms, 1, 0, 0, 0)
}

/// `chrono::DateTime::from_timestamp_millis`, `NaiveDate::with_day` and
/// `NaiveDate::and_hms_opt`: the day and time of day in the month of an instant,
/// in UTC, is a function of them. Every month has the days up to the
/// twenty-eighth. Midnight of the first day is the start of a day, not before the
/// epoch, and at most thirty-one days back.
#[verifier::external_body]
fn read_in_month(ms: i64, day: u32, hour: u32, minute: u32, second: u32) -> (r: i64)
    requires
        0 <= ms <= MAX_CLOCK_MS,
        1 <= day <= 28,
        hour < 24 && minute < 60 && second < 60,
    ensures
        r == utc_in_month(ms, day, hour, minute, second),
        day == 1 && hour == 0 && minute == 0 && second == 0 ==> 0 <= r <= ms,
        day == 1 && hour == 0 && minute == 0 && second == 0 ==> ms - r < 31 * 86_400_000,
        day == 1 && hour == 0 && minute == 0 && second == 0 ==> r % 86_400_000 == 0,
{
    let date = chrono::DateTime::from_timestamp_millis(ms).unwrap().date_naive();
    let date = chrono::Datelike::with_day(&date, day).unwrap();
    date.and_hms_opt(hour, minute, second).unwrap().and_utc().timestamp_millis()
}

/// The first instant of the current month, in UTC.
pub fn month_start_ms(now_ms: i64) -> (r: i64)
    requires
        0 <= now_ms <= MAX_CLOCK_MS,
    ensures
        r == utc_month_start(now_ms),
        0 <= r <= now_ms,
        now_ms - r < 31 * 86_400_000,
        r % 86_400_000 == 0,
{
    read_in_month(now_ms, 1, 0, 0, 0)
}

// ---------------------------------------------------------------------------
// Totals
// ---------------------------------------------------------------------------

/// The four sums over groups of attempts.
pub open spec fn sums(s: Seq<UsageSummary>) -> (int, int, int, int)
    decreases s.len(),
{
    if s.len() == 0 {
        (0, 0, 0, 0)
    } else {
        let t = sums(s.drop_last());
        let l = s.last();
        (
            t.0 + l.requests,
            t.1 + l.unknown_requests,
            t.2 + l.input_tokens,
            t.3 + l.output_tokens,
        )
    }
}

pub open spec fn fits(i: int) -> bool {
    i64::MIN <= i <= i64::MAX
}

/// The totals over groups of attempts, if they can be told.
pub open spec fn totals_of(s: Seq<UsageSummary>) -> Option<Counters> {
    let t = sums(s);
    if fits(t.0) && fits(t.1) && fits(t.2) && fits(t.3) {
        Some(
            Counters {
                attempts: t.0 as i64,
                unknown: t.1 as i64,
                input_tokens: t.2 as i64,
                output_tokens: t.3 as i64,
            },
        )
    } else {
        None
    }
}

fn narrow(i: i128) -> (r: Option<i64>)
    ensures
        match r {
            Some(x) => x == i,
            None => !fits(i as int),
        },
{
    if i < i64::MIN as i128 || i > i64::MAX as i128 {
        None
    } else {
        Some(i as i64)
    }
}

/// The totals over groups of attempts.
pub fn totals(rows: &Vec<UsageSummary>) -> (r: Option<Counters>)
    ensures
        r == totals_of(rows@),
{
    let mut a: i128 = 0;
    let mut u: i128 = 0;
    let mut x: i128 = 0;
    let mut y: i128 = 0;
    for i in 0..rows.len()
        invariant
            rows.len() <= usize::MAX,
            (a as int, u as int, x as int, y as int) == sums(rows@.take(i as int)),
            -0x8000_0000_0000_0000 * i <= a <= 0x8000_0000_0000_0000 * i,
            -0x8000_0000_0000_0000 * i <= u <= 0x8000_0000_0000_0000 * i,
            -0x8000_0000_0000_0000 * i <= x <= 0x8000_0000_0000_0000 * i,
            -0x8000_0000_0000_0000 * i <= y <= 0x8000_0000_0000_0000 * i,
    {
        assert(rows@.take(i + 1).drop_last() =~= rows@.take(i as int));
        assert(i + 1 <= 0x1_0000_0000_0000_0000);
        a = a + rows[i].requests as i128;
        u = u + rows[i].unknown_requests as i128;
        x = x + rows[i].input_tokens as i128;
        y = y + rows[i].output_tokens as i128;
    }
    assert(rows@.take(rows@.len() as int) =~= rows@);
    match (narrow(a), narrow(u), narrow(x), narrow(y)) {
        (Some(attempts), Some(unknown), Some(input_tokens), Some(output_tokens)) => Some(
            Counters { attempts, unknown, input_tokens, output_tokens },
        ),
        _ => None,
    }
}

/// Adding up two lists of groups adds up their totals: no attempt is lost or
/// counted twice.
pub proof fn law_totals_add_up(a: Seq<UsageSummary>, b: Seq<UsageSummary>)
    ensures
        sums(a + b).0 == sums(a).0 + sums(b).0,
        sums(a + b).1 == sums(a).1 + sums(b).1,
        sums(a + b).2 == sums(a).2 + sums(b).2,
        sums(a + b).3 == sums(a).3 + sums(b).3,
    decreases b.len(),
{
    if b.len() == 0 {
        assert(a + b =~= a);
    } else {
        assert((a + b).drop_last() =~= a + b.drop_last());
        law_totals_add_up(a, b.drop_last());
    }
}

/// The totals of one account: the last group that is about it.
pub open spec fn account_totals(rows: Seq<UsageSummary>, id: Seq<char>) -> Counters
    decreases rows.len(),
{
    if rows.len() == 0 {
        no_counts()
    } else if opt_view(rows.last().account_id) == Some(id) {
        Counters::of(rows.last())
    } else {
        account_totals(rows.drop_last(), id)
    }
}

fn totals_for(rows: &Vec<UsageSummary>, id: &str) -> (r: Counters)
    ensures
        r == account_totals(rows@, id@),
{
    let mut i: usize = rows.len();
    assert(rows@.take(i as int) =~= rows@);
    while i > 0
        invariant
            i <= rows@.len(),
            account_totals(rows@, id@) == account_totals(rows@.take(i as int), id@),
        decreases i,
    {
        assert(rows@.take(i as int).drop_last() =~= rows@.take(i - 1));
        assert(rows@.take(i as int).last() == rows@[i - 1]);
        if let Some(name) = &rows[i - 1].account_id {
            if same(name.as_str(), id) {
                return Counters::from_summary(&rows[i - 1]);
            }
        }
        i = i - 1;
    }
    Counters::default()
}

/// How many sessions are bound to an account.
pub open spec fn sessions(s: Seq<BindingView>, id: Seq<char>) -> int
    decreases s.len(),
{
    if s.len() == 0 {
        0
    } else {
        sessions(s.drop_last(), id) + (if s.last().account_id == id {
            1int
        } else {
            0int
        })
    }
}

/// How many sessions are bound to an account.
pub fn session_count(bindings: &Vec<crate::models::Binding>, id: &str) -> (r: usize)
    ensures
        r == sessions(binding_views(bindings@), id@),
{
    let ghost all = binding_views(bindings@);
    let mut n: usize = 0;
    assert(all.take(0) =~= Seq::<BindingView>::empty());
    for i in 0..bindings.len()
        invariant
            all == binding_views(bindings@),
            n == sessions(all.take(i as int), id@),
            n <= i,
    {
        assert(all.take(i + 1).drop_last() =~= all.take(i as int));
        assert(all.take(i + 1).last() == all[i as int]);
        if same(bindings[i].account_id.as_str(), id) {
            n = n + 1;
        }
    }
    assert(all.take(all.len() as int) =~= all);
    n
}

// ---------------------------------------------------------------------------
// Accounts
// ---------------------------------------------------------------------------

/// An account as it is shown: usage is known of Codex accounts only.
pub open spec fn shown(
    state: AccountState,
    pool: PoolView,
    rows: Seq<UsageSummary>,
    resets: ManagerView,
) -> MonitorAccountView {
    let a = state.account;
    MonitorAccountView {
        id: a.id@,
        label: a.label@,
        backend: a.backend,
        status: a.status,
        reset_at: a.reset_at,
        inflight: state.inflight,
        sticky_sessions: sessions(pool.listed_bindings(), a.id@),
        month: account_totals(rows, a.id@),
        quota: if a.backend == BackendId::Codex {
            resets.snapshot(a.id@)
        } else {
            None
        },
    }
}

/// The first account comes before the second: by label, then by id.
pub open spec fn shown_before(a: MonitorAccountView, b: MonitorAccountView) -> bool {
    below(a.label, b.label) || (a.label == b.label && below(a.id, b.id))
}

/// The accounts are in order.
pub open spec fn in_order(s: Seq<MonitorAccountView>) -> bool {
    forall|i: int, j: int|
        0 <= i < j < s.len() ==> shown_before(#[trigger] s[i], #[trigger] s[j])
}

fn comes_before(a: &MonitorAccount, b: &MonitorAccount) -> (r: bool)
    ensures
        r == shown_before(a@, b@),
{
    if same(a.label.as_str(), b.label.as_str()) {
        proof {
            law_order_total(a.label@, a.label@);
        }
        return is_below(a.id.as_str(), b.id.as_str());
    }
    is_below(a.label.as_str(), b.label.as_str())
}

proof fn lemma_before_transitive(a: MonitorAccountView, b: MonitorAccountView, c: MonitorAccountView)
    requires
        shown_before(a, b),
        shown_before(b, c),
    ensures
        shown_before(a, c),
{
    law_order_total(a.label, a.label);
    if below(a.label, b.label) && below(b.label, c.label) {
        law_order_transitive(a.label, b.label, c.label);
    }
    if a.label == b.label && b.label == c.label {
        law_order_transitive(a.id, b.id, c.id);
    }
}

fn place(list: &mut Vec<MonitorAccount>, a: MonitorAccount)
    requires
        in_order(account_views(old(list)@)),
        forall|i: int| 0 <= i < old(list)@.len() ==> (#[trigger] old(list)@[i]).id@ != a.id@,
    ensures
        in_order(account_views(final(list)@)),
        final(list)@.len() == old(list)@.len() + 1,
        forall|x: MonitorAccountView| #[trigger]
            account_views(final(list)@).contains(x) <==> x == a@ || account_views(
                old(list)@,
            ).contains(x),
{
    let ghost v = account_views(list@);
    let mut at: usize = 0;
    while at < list.len() && comes_before(&list[at], &a)
        invariant
            v == account_views(list@),
            at <= list@.len(),
            forall|i: int| 0 <= i < at ==> shown_before(#[trigger] v[i], a@),
        decreases list@.len() - at,
    {
        assert(v[at as int] == list@[at as int]@);
        at = at + 1;
    }
    let ghost before = list@;
    let ghost new = a@;
    list.insert(at, a);
    proof {
        let w = account_views(list@);
        assert(w =~= v.insert(at as int, new));
        if at < before.len() {
            assert(v[at as int] == before[at as int]@);
            law_order_total(before[at as int].label@, new.label);
            law_order_total(before[at as int].id@, new.id);
            assert(shown_before(new, v[at as int]));
        }
        assert forall|i: int, j: int| 0 <= i < j < w.len() implies shown_before(
            #[trigger] w[i],
            #[trigger] w[j],
        ) by {
            if i == at {
                assert(w[j] == v[j - 1]);
                if j - 1 > at {
                    assert(shown_before(v[at as int], v[j - 1]));
                    lemma_before_transitive(new, v[at as int], v[j - 1]);
                }
            } else if j == at {
                assert(shown_before(v[i], new));
            } else if i < at && j < at {
                assert(shown_before(v[i], v[j]));
            } else if i < at {
                assert(shown_before(v[i], v[j - 1]));
            } else {
                assert(shown_before(v[i - 1], v[j - 1]));
            }
        }
        assert forall|x: MonitorAccountView| #[trigger] w.contains(x) <==> x == new || v.contains(
            x,
        ) by {
            if w.contains(x) {
                let i = choose|i: int| 0 <= i < w.len() && w[i] == x;
                if i < at {
                    assert(v[i] == x);
                } else if i > at {
                    assert(v[i - 1] == x);
                }
            }
            if x == new {
                assert(w[at as int] == x);
            }
            if v.contains(x) {
                let i = choose|i: int| 0 <= i < v.len() && v[i] == x;
                if i < at {
                    assert(w[i] == x);
                } else {
                    assert(w[i + 1] == x);
                }
            }
        }
    }
}

/// The accounts of the pool as they are shown, each once, in order.
pub open spec fn shows_accounts(
    s: Seq<MonitorAccountView>,
    pool: PoolView,
    rows: Seq<UsageSummary>,
    resets: ManagerView,
) -> bool {
    &&& in_order(s)
    &&& s.len() == pool.accounts.dom().len()
    &&& forall|x: MonitorAccountView| #[trigger]
        s.contains(x) <==> pool.accounts.contains_key(x.id) && x == shown(
            pool.accounts[x.id],
            pool,
            rows,
            resets,
        )
}

/// The accounts of the pool as they are shown.
pub fn shown_accounts(pool: &PoolCore, rows: &Vec<UsageSummary>, resets: &ResetManager) -> (r: Vec<
    MonitorAccount,
>)
    requires
        pool.wf(),
    ensures
        shows_accounts(account_views(r@), pool@, rows@, resets@),
{
    let states = pool.states();
    let bindings = pool.bindings();
    proof {
        lemma_account_map(states@);
    }
    let mut out: Vec<MonitorAccount> = Vec::new();
    for i in 0..states.len()
        invariant
            unique_ids(states@),
            binding_views(bindings@) == pool@.listed_bindings(),
            forall|j: int|
                0 <= j < states@.len() ==> pool@.accounts.contains_key(
                    (#[trigger] states@[j]).account.id@,
                ) && pool@.accounts[states@[j].account.id@] == states@[j],
            out@.len() == i,
            in_order(account_views(out@)),
            forall|x: MonitorAccountView| #[trigger]
                account_views(out@).contains(x) <==> exists|j: int|
                    0 <= j < i && x == shown(#[trigger] states@[j], pool@, rows@, resets@),
    {
        let a = &states[i].account;
        let quota = if a.backend == BackendId::Codex {
            resets.snapshot(a.id.as_str())
        } else {
            None
        };
        let entry = MonitorAccount {
            id: a.id.clone(),
            label: a.label.clone(),
            backend: a.backend,
            status: a.status,
            reset_at: a.reset_at,
            inflight: states[i].inflight,
            sticky_sessions: session_count(&bindings, a.id.as_str()),
            month: totals_for(rows, a.id.as_str()),
            quota,
        };
        let ghost new = entry@;
        assert(new == shown(states@[i as int], pool@, rows@, resets@));
        let ghost before = account_views(out@);
        proof {
            assert forall|k: int| 0 <= k < out@.len() implies (#[trigger] out@[k]).id@
                != entry.id@ by {
                assert(account_views(out@)[k] == out@[k]@);
                assert(account_views(out@).contains(out@[k]@));
                let j = choose|j: int|
                    0 <= j < i && out@[k]@ == shown(#[trigger] states@[j], pool@, rows@, resets@);
                assert(states@[j].account.id@ != states@[i as int].account.id@);
            }
        }
        place(&mut out, entry);
        proof {
            assert forall|x: MonitorAccountView| #[trigger] account_views(out@).contains(x)
                <==> exists|j: int|
                0 <= j < i + 1 && x == shown(#[trigger] states@[j], pool@, rows@, resets@) by {
                if account_views(out@).contains(x) {
                    if x == new {
                        assert(x == shown(states@[i as int], pool@, rows@, resets@));
                    } else {
                        assert(before.contains(x));
                        let j = choose|j: int|
                            0 <= j < i && x == shown(#[trigger] states@[j], pool@, rows@, resets@);
                        assert(x == shown(states@[j], pool@, rows@, resets@));
                    }
                }
                if exists|j: int|
                    0 <= j < i + 1 && x == shown(#[trigger] states@[j], pool@, rows@, resets@) {
                    let j = choose|j: int|
                        0 <= j < i + 1 && x == shown(#[trigger] states@[j], pool@, rows@, resets@);
                    if j < i {
                        assert(before.contains(x));
                    }
                }
            }
        }
    }
    proof {
        let s = account_views(out@);
        assert forall|x: MonitorAccountView| #[trigger] s.contains(x)
            <==> pool@.accounts.contains_key(x.id) && x == shown(
            pool@.accounts[x.id],
            pool@,
            rows@,
            resets@,
        ) by {
            if s.contains(x) {
                let j = choose|j: int|
                    0 <= j < states@.len() && x == shown(
                        #[trigger] states@[j],
                        pool@,
                        rows@,
                        resets@,
                    );
                assert(pool@.accounts[states@[j].account.id@] == states@[j]);
            }
            if pool@.accounts.contains_key(x.id) && x == shown(
                pool@.accounts[x.id],
                pool@,
                rows@,
                resets@,
            ) {
                let j = choose|j: int|
                    0 <= j < states@.len() && states@[j].account.id@ == x.id;
                assert(x == shown(states@[j], pool@, rows@, resets@));
            }
        }
    }
    out
}

// ---------------------------------------------------------------------------
// Requests
// ---------------------------------------------------------------------------

/// The request shows this line of the history.
pub open spec fn shows_request(r: MonitorRequest, e: RequestLogEntry) -> bool {
    &&& r.ts == e.ts
    &&& r.model == e.model
    &&& r.backend == e.backend
    &&& r.label == e.label
    &&& r.status == e.status
    &&& r.duration_ms == e.duration_ms
}

/// The latest requests, the latest first.
pub fn recent_requests(log: &RequestLog) -> (r: Vec<MonitorRequest>)
    ensures
        r@.len() == (if log@.len() < RECENT_REQUESTS {
            log@.len()
        } else {
            RECENT_REQUESTS as nat
        }),
        forall|i: int|
            0 <= i < r@.len() ==> shows_request(#[trigger] r@[i], log@[log@.len() - 1 - i]),
{
    let entries = log.entries();
    let mut out: Vec<MonitorRequest> = Vec::new();
    let mut i: usize = entries.len();
    while i > 0 && out.len() < RECENT_REQUESTS
        invariant
            entries@ == log@,
            i + out@.len() == entries@.len(),
            out@.len() <= RECENT_REQUESTS,
            forall|k: int|
                0 <= k < out@.len() ==> shows_request(
                    #[trigger] out@[k],
                    log@[log@.len() - 1 - k],
                ),
        decreases i,
    {
        let e = &entries[i - 1];
        out.push(
            MonitorRequest {
                ts: e.ts,
                model: e.model.clone(),
                backend: e.backend.clone(),
                label: e.label.clone(),
                status: e.status,
                duration_ms: e.duration_ms,
            },
        );
        i = i - 1;
    }
    out
}

/// The state of the pool as it is shown. `rows` are the totals of the month by
/// account, `last_minute` those of the last minute. There is no state to show
/// where the totals cannot be told.
pub fn collect(
    now_ms: i64,
    month_start_ms: i64,
    rows: &Vec<UsageSummary>,
    last_minute: &Vec<UsageSummary>,
    minute_bins: Vec<i64>,
    pool: &PoolCore,
    resets: &ResetManager,
    log: &RequestLog,
) -> (r: Option<MonitorSnapshot>)
    requires
        pool.wf(),
    ensures
        match r {
            Some(s) => {
                &&& s.now_ms == now_ms
                &&& s.month_start_ms == month_start_ms
                &&& shows_accounts(account_views(s.accounts@), pool@, rows@, resets@)
                &&& totals_of(rows@) == Some(s.month)
                &&& s.last_minute == (if last_minute@.len() > 0 {
                    Counters::of(last_minute@[0])
                } else {
                    no_counts()
                })
                &&& s.minute_bins == minute_bins
                &&& s.recent@.len() == (if log@.len() < RECENT_REQUESTS {
                    log@.len()
                } else {
                    RECENT_REQUESTS as nat
                })
                &&& forall|i: int|
                    0 <= i < s.recent@.len() ==> shows_request(
                        #[trigger] s.recent@[i],
                        log@[log@.len() - 1 - i],
                    )
            },
            None => totals_of(rows@) is None,
        },
{
    let month = match totals(rows) {
        Some(t) => t,
        None => return None,
    };
    let accounts = shown_accounts(pool, rows, resets);
    let last = if last_minute.len() > 0 {
        Counters::from_summary(&last_minute[0])
    } else {
        Counters::default()
    };
    let recent = recent_requests(log);
    Some(
        MonitorSnapshot {
            now_ms,
            month_start_ms,
            accounts,
            month,
            last_minute: last,
            minute_bins,
            recent,
        },
    )
}

} // verus!
