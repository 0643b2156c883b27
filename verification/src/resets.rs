//! Codex usage snapshots and the redemption of banked resets.
use crate::clock::{clamped, minus, opt_secs_as_ms, seconds_to_ms};
use crate::models::{is_uuid_text, new_id, Account, AccountStatus, BackendId};
use crate::pool::{account_map, lemma_account_map, unique_ids, PoolCore, PoolView};
use crate::table::Table;
use crate::text::{
    below, is_below, law_order_total, law_order_transitive, opt_str_view, opt_view, same,
    trim_end_matches, trim_end_of,
};
use vstd::prelude::*;

verus! {

/// The least time between two rounds of usage checks for a reset.
pub const CHECK_INTERVAL_MS: i64 = 30_000;

/// How often usage is read after a redemption to see whether it worked.
pub const CONFIRMATIONS: u8 = 3;

// ---------------------------------------------------------------------------
// Quota windows
// ---------------------------------------------------------------------------

/// One quota window of an account.
#[derive(Clone, Copy, Debug, PartialEq, Eq, Structural)]
pub struct Window {
    /// How much of the quota is used, in whole percent, rounded down.
    pub used_percent: i64,
    /// When the window resets, in epoch seconds.
    pub reset_at: Option<i64>,
    pub limit_window_seconds: Option<i64>,
}

/// The quota of an account.
#[derive(Clone, Copy, Debug, PartialEq, Eq, Structural)]
pub struct RateLimit {
    pub allowed: Option<bool>,
    pub limit_reached: Option<bool>,
    pub primary_window: Option<Window>,
    pub secondary_window: Option<Window>,
}

/// The window is used up.
pub open spec fn exhausted(w: Window) -> bool {
    w.used_percent >= 99
}

/// The time at which the window lets the account go on: its reset, if it is used
/// up and the reset lies ahead.
pub open spec fn window_recovery(w: Option<Window>, now: int) -> Option<i64> {
    match w {
        Some(w) => if exhausted(w) {
            match opt_secs_as_ms(w.reset_at) {
                Some(t) if t > now => Some(t),
                _ => None,
            }
        } else {
            None
        },
        None => None,
    }
}

/// The account is blocked.
pub open spec fn blocked(limit: RateLimit) -> bool {
    limit.allowed == Some(false) && limit.limit_reached != Some(false)
}

/// When a blocked account returns by itself: the latest reset ahead of the
/// windows that are used up.
pub open spec fn recovery_of(limit: RateLimit, now: int) -> Option<i64> {
    if blocked(limit) {
        crate::codex::later(
            window_recovery(limit.primary_window, now),
            window_recovery(limit.secondary_window, now),
        )
    } else {
        None
    }
}

fn recovery_of_window(w: &Option<Window>, now: i64) -> (r: Option<i64>)
    ensures
        r == window_recovery(*w, now as int),
{
    match w {
        Some(w) => if w.used_percent >= 99 {
            match w.reset_at {
                Some(secs) => match seconds_to_ms(secs) {
                    Some(t) => if t > now {
                        Some(t)
                    } else {
                        None
                    },
                    None => None,
                },
                None => None,
            }
        } else {
            None
        },
        None => None,
    }
}

/// When a blocked account returns by itself.
pub fn natural_recovery_ms(rate_limit: &RateLimit, now: i64) -> (r: Option<i64>)
    ensures
        r == recovery_of(*rate_limit, now as int),
{
    match rate_limit.allowed {
        Some(false) => {},
        _ => return None,
    }
    if let Some(false) = rate_limit.limit_reached {
        return None;
    }
    let a = recovery_of_window(&rate_limit.primary_window, now);
    let b = recovery_of_window(&rate_limit.secondary_window, now);
    match (a, b) {
        (Some(x), Some(y)) => Some(
            if x >= y {
                x
            } else {
                y
            },
        ),
        (Some(x), None) => Some(x),
        (None, y) => y,
    }
}

/// The natural recovery is the latest reset ahead of the windows that are used
/// up; a window that is missing or not used up does not extend it.
pub proof fn law_recovery_is_latest_exhausted_window(limit: RateLimit, now: int)
    requires
        blocked(limit),
    ensures
        recovery_of(limit, now) is Some <==> window_recovery(limit.primary_window, now) is Some
            || window_recovery(limit.secondary_window, now) is Some,
        recovery_of(limit, now) matches Some(t) ==> {
            &&& t > now
            &&& recovery_of(limit, now) == window_recovery(limit.primary_window, now)
                || recovery_of(limit, now) == window_recovery(limit.secondary_window, now)
            &&& window_recovery(limit.primary_window, now) matches Some(a) ==> a <= t
            &&& window_recovery(limit.secondary_window, now) matches Some(b) ==> b <= t
        },
        limit.primary_window matches Some(w) && !exhausted(w) ==> recovery_of(limit, now)
            == window_recovery(limit.secondary_window, now),
        limit.secondary_window matches Some(w) && !exhausted(w) ==> recovery_of(limit, now)
            == window_recovery(limit.primary_window, now),
{
}

/// The deadline that a blocked account is cooled to when usage names its
/// recovery: a healthy account to the recovery, a cooling one only to a later
/// one. Other accounts are left alone.
pub open spec fn cooling_deadline(status: AccountStatus, current: i64, recovery: i64) -> Option<i64> {
    match status {
        AccountStatus::Healthy => Some(recovery),
        AccountStatus::Cooling => if recovery > current {
            Some(recovery)
        } else {
            None
        },
        AccountStatus::AuthError => None,
        AccountStatus::Disabled => None,
    }
}

pub fn blocked_cooling_deadline(status: AccountStatus, current: i64, recovery: i64) -> (r: Option<
    i64,
>)
    ensures
        r == cooling_deadline(status, current, recovery),
{
    match status {
        AccountStatus::Healthy => Some(recovery),
        AccountStatus::Cooling => if recovery > current {
            Some(recovery)
        } else {
            None
        },
        AccountStatus::AuthError | AccountStatus::Disabled => None,
    }
}

/// Usage never shortens the cooling of an account.
pub proof fn law_usage_never_shortens_cooling(current: i64, recovery: i64)
    ensures
        cooling_deadline(AccountStatus::Cooling, current, recovery) matches Some(t) ==> t
            == recovery && t > current,
        cooling_deadline(AccountStatus::Disabled, current, recovery) is None,
        cooling_deadline(AccountStatus::AuthError, current, recovery) is None,
{
}

// ---------------------------------------------------------------------------
// Candidates
// ---------------------------------------------------------------------------

/// An account that could spend a banked reset, and the credit that it would use.
#[derive(Debug)]
pub struct Candidate {
    pub account_id: String,
    pub recovery_ms: i64,
    pub credit_id: String,
    pub credit_expiry_ms: Option<i64>,
}

impl Clone for Candidate {
    fn clone(&self) -> (r: Self)
        ensures
            r == *self,
    {
        Candidate {
            account_id: self.account_id.clone(),
            recovery_ms: self.recovery_ms,
            credit_id: self.credit_id.clone(),
            credit_expiry_ms: self.credit_expiry_ms,
        }
    }
}

/// The end of a credit; one without an end counts as the last.
pub open spec fn credit_end(at: Option<i64>) -> i64 {
    match at {
        Some(t) => t,
        None => i64::MAX,
    }
}

/// The first candidate is to be preferred: it is blocked for longer; or as long
/// with a credit that ends sooner; or else its id comes first.
pub open spec fn outranks(a: Candidate, b: Candidate) -> bool {
    ||| a.recovery_ms > b.recovery_ms
    ||| a.recovery_ms == b.recovery_ms && credit_end(a.credit_expiry_ms) < credit_end(
        b.credit_expiry_ms,
    )
    ||| a.recovery_ms == b.recovery_ms && credit_end(a.credit_expiry_ms) == credit_end(
        b.credit_expiry_ms,
    ) && below(a.account_id@, b.account_id@)
}

/// No candidate is to be preferred to the one at `k`; of equal ones it is the
/// last.
pub open spec fn is_best(s: Seq<Candidate>, k: int) -> bool {
    &&& 0 <= k < s.len()
    &&& forall|j: int| 0 <= j < s.len() ==> !outranks(#[trigger] s[j], s[k])
    &&& forall|j: int| k < j < s.len() ==> outranks(s[k], #[trigger] s[j])
}

/// The candidate that is to be preferred to all others.
pub open spec fn best_candidate(s: Seq<Candidate>) -> Option<Candidate> {
    if exists|k: int| is_best(s, k) {
        Some(s[choose|k: int| is_best(s, k)])
    } else {
        None
    }
}

fn end_of(at: Option<i64>) -> (r: i64)
    ensures
        r == credit_end(at),
{
    match at {
        Some(t) => t,
        None => i64::MAX,
    }
}

fn preferred(a: &Candidate, b: &Candidate) -> (r: bool)
    ensures
        r == outranks(*a, *b),
{
    if a.recovery_ms != b.recovery_ms {
        return a.recovery_ms > b.recovery_ms;
    }
    let x = end_of(a.credit_expiry_ms);
    let y = end_of(b.credit_expiry_ms);
    if x != y {
        return x < y;
    }
    is_below(a.account_id.as_str(), b.account_id.as_str())
}

pub proof fn lemma_outranks(a: Candidate, b: Candidate, c: Candidate)
    ensures
        !outranks(a, a),
        outranks(a, b) ==> !outranks(b, a),
        outranks(a, b) && !outranks(c, b) ==> outranks(a, c),
        !outranks(a, b) && !outranks(b, c) ==> !outranks(a, c),
{
    law_order_total(a.account_id@, a.account_id@);
    law_order_total(a.account_id@, b.account_id@);
    law_order_total(b.account_id@, c.account_id@);
    law_order_total(a.account_id@, c.account_id@);
    if below(a.account_id@, b.account_id@) && below(b.account_id@, c.account_id@) {
        law_order_transitive(a.account_id@, b.account_id@, c.account_id@);
    }
    if below(a.account_id@, c.account_id@) && below(c.account_id@, b.account_id@) {
        law_order_transitive(a.account_id@, c.account_id@, b.account_id@);
    }
    if below(c.account_id@, a.account_id@) && below(a.account_id@, b.account_id@) {
        law_order_transitive(c.account_id@, a.account_id@, b.account_id@);
    }
    if below(b.account_id@, a.account_id@) && below(a.account_id@, c.account_id@) {
        law_order_transitive(b.account_id@, a.account_id@, c.account_id@);
    }
}

/// The candidate that is to be preferred: the longest blocked one.
pub fn choose_candidate(candidates: &Vec<Candidate>) -> (r: Option<Candidate>)
    ensures
        r == best_candidate(candidates@),
        r is None <==> candidates@.len() == 0,
        r matches Some(c) ==> candidates@.contains(c),
{
    if candidates.len() == 0 {
        return None;
    }
    let mut best: usize = 0;
    proof {
        lemma_outranks(candidates@[0], candidates@[0], candidates@[0]);
    }
    for i in 1..candidates.len()
        invariant
            best < i <= candidates@.len(),
            forall|j: int| 0 <= j < i ==> !outranks(#[trigger] candidates@[j], candidates@[best as int]),
            forall|j: int| best < j < i ==> outranks(candidates@[best as int], #[trigger] candidates@[j]),
    {
        let ghost now = candidates@[best as int];
        let ghost next = candidates@[i as int];
        if !preferred(&candidates[best], &candidates[i]) {
            proof {
                assert forall|j: int| 0 <= j < i + 1 implies !outranks(
                    #[trigger] candidates@[j],
                    next,
                ) by {
                    lemma_outranks(candidates@[j], now, next);
                    lemma_outranks(next, next, next);
                }
            }
            best = i;
        } else {
            proof {
                lemma_outranks(now, next, next);
            }
        }
    }
    proof {
        assert(is_best(candidates@, best as int));
        let k = choose|k: int| is_best(candidates@, k);
        assert(is_best(candidates@, k));
        if k < best {
            assert(outranks(candidates@[k], candidates@[best as int]));
        } else if best < k {
            assert(outranks(candidates@[best as int], candidates@[k]));
        }
    }
    Some(candidates[best].clone())
}

/// The chosen candidate is blocked for as long as any other; of those blocked as
/// long its credit ends as soon as any.
pub proof fn law_longest_blocked_first(s: Seq<Candidate>, k: int, j: int)
    requires
        is_best(s, k),
        0 <= j < s.len(),
    ensures
        s[j].recovery_ms <= s[k].recovery_ms,
        s[j].recovery_ms == s[k].recovery_ms ==> credit_end(s[k].credit_expiry_ms) <= credit_end(
            s[j].credit_expiry_ms,
        ),
{
    assert(!outranks(s[j], s[k]));
}

// ---------------------------------------------------------------------------
// What Codex reports
// ---------------------------------------------------------------------------

/// What the usage endpoint reports.
#[derive(Debug)]
pub struct UsageResponse {
    pub account_id: Option<String>,
    pub rate_limit: Option<RateLimit>,
    pub available_count: Option<i64>,
}

/// A banked reset.
#[derive(Debug)]
pub struct Credit {
    pub id: String,
    pub reset_type: String,
    pub status: String,
    pub expires_at: Option<String>,
}

impl Clone for Credit {
    fn clone(&self) -> (r: Self)
        ensures
            r == *self,
    {
        Credit {
            id: self.id.clone(),
            reset_type: self.reset_type.clone(),
            status: self.status.clone(),
            expires_at: self.expires_at.clone(),
        }
    }
}

/// What became of a redemption.
#[derive(Clone, Copy, Debug, PartialEq, Eq, Structural)]
pub enum ConsumeCode {
    Reset,
    NothingToReset,
    NoCredit,
    AlreadyRedeemed,
}

/// The usage of an account as it was last read.
#[derive(Debug)]
pub struct UsageSnapshot {
    pub rate_limit: Option<RateLimit>,
    pub available_resets: i64,
    pub credit_expirations: Vec<Option<i64>>,
    pub fetched_at_ms: i64,
}

pub struct SnapshotView {
    pub rate_limit: Option<RateLimit>,
    pub available_resets: int,
    pub credit_expirations: Seq<Option<i64>>,
    pub fetched_at_ms: int,
}

impl View for UsageSnapshot {
    type V = SnapshotView;

    open spec fn view(&self) -> SnapshotView {
        SnapshotView {
            rate_limit: self.rate_limit,
            available_resets: self.available_resets as int,
            credit_expirations: self.credit_expirations@,
            fetched_at_ms: self.fetched_at_ms as int,
        }
    }
}

impl UsageSnapshot {
    /// A copy of the snapshot.
    pub fn copy(&self) -> (r: UsageSnapshot)
        ensures
            r@ == self@,
    {
        UsageSnapshot {
            rate_limit: self.rate_limit,
            available_resets: self.available_resets,
            credit_expirations: copy_times(&self.credit_expirations),
            fetched_at_ms: self.fetched_at_ms,
        }
    }
}

fn copy_times(v: &Vec<Option<i64>>) -> (r: Vec<Option<i64>>)
    ensures
        r@ == v@,
{
    let mut out: Vec<Option<i64>> = Vec::new();
    for i in 0..v.len()
        invariant
            out@ == v@.take(i as int),
    {
        out.push(v[i]);
        assert(v@.take(i + 1) =~= v@.take(i as int).push(v@[i as int]));
    }
    assert(v@.take(v@.len() as int) =~= v@);
    out
}

/// What `chrono::DateTime::parse_from_rfc3339` reads from a text, in epoch
/// seconds.
pub uninterp spec fn rfc3339_secs(text: Seq<char>) -> Option<i64>;

/// `chrono::DateTime::parse_from_rfc3339` and `DateTime::timestamp`: the instant
/// that a text names, if it is an RFC 3339 date, is a function of the text.
#[verifier::external_body]
fn read_rfc3339(text: &str) -> (r: Option<i64>)
    ensures
        r == rfc3339_secs(text@),
{
    chrono::DateTime::parse_from_rfc3339(text).ok().map(|d| d.timestamp())
}

/// The end of a credit in epoch milliseconds, where it is given and can be read.
pub open spec fn expiry_of(text: Option<Seq<char>>) -> Option<i64> {
    match text {
        Some(t) => opt_secs_as_ms(rfc3339_secs(t)),
        None => None,
    }
}

/// The end of a credit, once its text was read as seconds.
pub fn expiry_from_secs(secs: Option<i64>) -> (r: Option<i64>)
    ensures
        r == opt_secs_as_ms(secs),
{
    match secs {
        Some(s) => seconds_to_ms(s),
        None => None,
    }
}

/// The end of a credit in epoch milliseconds.
pub fn expiry_ms(value: Option<&str>) -> (r: Option<i64>)
    ensures
        r == expiry_of(opt_str_view(value)),
{
    match value {
        Some(t) => expiry_from_secs(read_rfc3339(t)),
        None => None,
    }
}

fn credit_expiry(c: &Credit) -> (r: Option<i64>)
    ensures
        r == expiry_of(opt_view(c.expires_at)),
{
    match &c.expires_at {
        Some(t) => expiry_ms(Some(t.as_str())),
        None => expiry_ms(None),
    }
}

/// The credit can be spent on a Codex quota.
pub open spec fn is_usable(c: Credit) -> bool {
    c.reset_type@ == "codex_rate_limits"@ && c.status@ == "available"@
}

/// The credits that can be spent, in order.
pub open spec fn usable(s: Seq<Credit>) -> Seq<Credit>
    decreases s.len(),
{
    if s.len() == 0 {
        s
    } else if is_usable(s.last()) {
        usable(s.drop_last()).push(s.last())
    } else {
        usable(s.drop_last())
    }
}

/// The credits that can be spent, in order.
pub fn usable_credits(credits: &Vec<Credit>) -> (r: Vec<Credit>)
    ensures
        r@ == usable(credits@),
{
    let mut out: Vec<Credit> = Vec::new();
    for i in 0..credits.len()
        invariant
            out@ == usable(credits@.take(i as int)),
    {
        assert(credits@.take(i + 1).drop_last() =~= credits@.take(i as int));
        if same(credits[i].reset_type.as_str(), "codex_rate_limits") && same(
            credits[i].status.as_str(),
            "available",
        ) {
            out.push(credits[i].clone());
        }
    }
    assert(credits@.take(credits@.len() as int) =~= credits@);
    out
}

/// The ends of credits, in order.
pub open spec fn expiries(s: Seq<Credit>) -> Seq<Option<i64>> {
    s.map_values(|c: Credit| expiry_of(opt_view(c.expires_at)))
}

fn expiries_of(credits: &Vec<Credit>) -> (r: Vec<Option<i64>>)
    ensures
        r@ == expiries(credits@),
{
    let mut out: Vec<Option<i64>> = Vec::new();
    for i in 0..credits.len()
        invariant
            out@ == expiries(credits@.take(i as int)),
    {
        out.push(credit_expiry(&credits[i]));
        assert(expiries(credits@.take(i + 1)) =~= expiries(credits@.take(i as int)).push(
            expiry_of(opt_view(credits@[i as int].expires_at)),
        ));
    }
    assert(credits@.take(credits@.len() as int) =~= credits@);
    out
}

/// The credit at `k` ends first; of several the first one.
pub open spec fn ends_first(s: Seq<Credit>, k: int) -> bool {
    &&& 0 <= k < s.len()
    &&& forall|j: int|
        0 <= j < s.len() ==> credit_end(expiries(s)[k]) <= credit_end(#[trigger] expiries(s)[j])
    &&& forall|j: int|
        0 <= j < k ==> credit_end(expiries(s)[k]) < credit_end(#[trigger] expiries(s)[j])
}

/// The credit that ends first.
pub open spec fn first_credit(s: Seq<Credit>) -> Option<Credit> {
    if exists|k: int| ends_first(s, k) {
        Some(s[choose|k: int| ends_first(s, k)])
    } else {
        None
    }
}

/// The credit that ends first.
pub fn soonest_credit(credits: &Vec<Credit>) -> (r: Option<Credit>)
    ensures
        r == first_credit(credits@),
        r is None <==> credits@.len() == 0,
{
    if credits.len() == 0 {
        return None;
    }
    let ends = expiries_of(credits);
    let mut best: usize = 0;
    for i in 1..credits.len()
        invariant
            ends@ == expiries(credits@),
            best < i <= credits@.len(),
            forall|j: int| 0 <= j < i ==> credit_end(ends@[best as int]) <= credit_end(#[trigger] ends@[j]),
            forall|j: int| 0 <= j < best ==> credit_end(ends@[best as int]) < credit_end(#[trigger] ends@[j]),
    {
        if end_of(ends[i]) < end_of(ends[best]) {
            best = i;
        }
    }
    proof {
        assert(ends_first(credits@, best as int));
        let k = choose|k: int| ends_first(credits@, k);
        assert(ends_first(credits@, k));
        if k < best {
            assert(credit_end(ends@[best as int]) < credit_end(ends@[k]));
        } else if best < k {
            assert(credit_end(ends@[k]) < credit_end(ends@[best as int]));
        }
    }
    Some(credits[best].clone())
}

/// The report is about another account than the one it was asked for.
pub open spec fn mismatched(response: UsageResponse, account: Account) -> bool {
    response.account_id is Some && account.account_id is Some && response.account_id->0@
        != account.account_id->0@
}

/// The snapshot that a report gives. The ends of credits stay known while there
/// are credits.
pub open spec fn snapshot_of(response: UsageResponse, before: Option<SnapshotView>, now: int) -> SnapshotView {
    let available: int = match response.available_count {
        Some(n) => if n < 0 {
            0
        } else {
            n as int
        },
        None => 0,
    };
    SnapshotView {
        rate_limit: response.rate_limit,
        available_resets: available,
        credit_expirations: if available > 0 && before is Some {
            before->0.credit_expirations
        } else {
            Seq::empty()
        },
        fetched_at_ms: now,
    }
}

/// Upstream says that the account may be used.
pub open spec fn is_allowed(s: SnapshotView) -> bool {
    s.rate_limit matches Some(l) && l.allowed == Some(true)
}

// ---------------------------------------------------------------------------
// The manager
// ---------------------------------------------------------------------------

/// Changes the status of an account if it is as expected.
pub fn set_status_if(
    pool: &mut PoolCore,
    account_id: &str,
    expected: AccountStatus,
    next: AccountStatus,
    reset_at: i64,
) -> (r: bool)
    requires
        old(pool).wf(),
    ensures
        final(pool).wf(),
        r == has_status(old(pool)@, account_id@, expected),
        final(pool)@ == status_if(old(pool)@, account_id@, expected, next, reset_at),
{
    let same_status = match pool.account(account_id) {
        Some(a) => a.status == expected,
        None => false,
    };
    if same_status {
        pool.set_status(account_id, next, reset_at);
    }
    same_status
}

/// The account is known and has this status.
pub open spec fn has_status(v: PoolView, id: Seq<char>, status: AccountStatus) -> bool {
    v.accounts.contains_key(id) && v.accounts[id].account.status == status
}

/// The pool with the status of an account changed, if it is as expected.
pub open spec fn status_if(
    v: PoolView,
    id: Seq<char>,
    expected: AccountStatus,
    next: AccountStatus,
    reset_at: i64,
) -> PoolView {
    if has_status(v, id, expected) {
        v.with_status(id, next, reset_at)
    } else {
        v
    }
}

/// What is known of the usage of Codex accounts, and when a reset was last
/// considered.
#[derive(Debug)]
pub struct ResetManager {
    base_url: String,
    enabled: bool,
    snapshots: Table<UsageSnapshot>,
    last_check_ms: i64,
}

pub struct ManagerView {
    pub base_url: Seq<char>,
    pub enabled: bool,
    pub snapshots: Map<Seq<char>, SnapshotView>,
    pub last_check_ms: int,
}

impl View for ResetManager {
    type V = ManagerView;

    closed spec fn view(&self) -> ManagerView {
        ManagerView {
            base_url: self.base_url@,
            enabled: self.enabled,
            snapshots: self.snapshots@.map_values(|s: UsageSnapshot| s@),
            last_check_ms: self.last_check_ms as int,
        }
    }
}

impl ManagerView {
    pub open spec fn snapshot(self, id: Seq<char>) -> Option<SnapshotView> {
        if self.snapshots.contains_key(id) {
            Some(self.snapshots[id])
        } else {
            None
        }
    }

    pub open spec fn noting(self, id: Seq<char>, s: SnapshotView) -> ManagerView {
        ManagerView { snapshots: self.snapshots.insert(id, s), ..self }
    }

    /// The report on an account is taken in, unless it is about another one.
    pub open spec fn reported(self, account: Account, response: UsageResponse, now: int) -> (
        ManagerView,
        Option<SnapshotView>,
    ) {
        if mismatched(response, account) {
            (self, None)
        } else {
            let s = snapshot_of(response, self.snapshot(account.id@), now);
            (self.noting(account.id@, s), Some(s))
        }
    }

    /// The ends of the credits of an account are taken in, if its usage is
    /// known.
    pub open spec fn credited(self, id: Seq<char>, ends: Seq<Option<i64>>) -> ManagerView {
        match self.snapshot(id) {
            Some(s) => self.noting(id, SnapshotView { credit_expirations: ends, ..s }),
            None => self,
        }
    }
}

pub open spec fn opt_snapshot(s: Option<UsageSnapshot>) -> Option<SnapshotView> {
    match s {
        Some(s) => Some(s@),
        None => None,
    }
}

impl ResetManager {
    /// A manager that asks the service at the given address; it redeems only if
    /// it is enabled.
    pub fn new(base_url: &str, enabled: bool) -> (r: Self)
        ensures
            r@ == (ManagerView {
                base_url: trim_end_of(base_url@, '/'),
                enabled,
                snapshots: Map::empty(),
                last_check_ms: 0,
            }),
    {
        let r = ResetManager {
            base_url: trim_end_matches(base_url, '/'),
            enabled,
            snapshots: Table::new(),
            last_check_ms: 0,
        };
        assert(r@.snapshots =~= Map::empty());
        r
    }

    /// The address of the service.
    pub fn base_url(&self) -> (r: &str)
        ensures
            r@ == self@.base_url,
    {
        self.base_url.as_str()
    }

    /// The usage of an account as it was last read.
    pub fn snapshot(&self, account_id: &str) -> (r: Option<UsageSnapshot>)
        ensures
            opt_snapshot(r) == self@.snapshot(account_id@),
    {
        match self.snapshots.get(account_id) {
            Some(s) => Some(s.copy()),
            None => None,
        }
    }

    fn note(&mut self, account_id: &str, s: UsageSnapshot)
        ensures
            final(self)@ == old(self)@.noting(account_id@, s@),
    {
        self.snapshots.put(account_id, s);
        assert(self@.snapshots =~= old(self)@.snapshots.insert(account_id@, s@));
    }

    /// Takes in the report on an account; a report on another account is
    /// refused.
    pub fn take_usage(&mut self, account: &Account, response: UsageResponse, now_ms: i64) -> (r:
        Option<UsageSnapshot>)
        ensures
            (final(self)@, opt_snapshot(r)) == old(self)@.reported(
                *account,
                response,
                now_ms as int,
            ),
    {
        if let Some(actual) = &response.account_id {
            if let Some(expected) = &account.account_id {
                if !same(actual.as_str(), expected.as_str()) {
                    return None;
                }
            }
        }
        let available: i64 = match response.available_count {
            Some(n) => if n < 0 {
                0
            } else {
                n
            },
            None => 0,
        };
        let expirations: Vec<Option<i64>> = if available > 0 {
            match self.snapshots.get(account.id.as_str()) {
                Some(s) => copy_times(&s.credit_expirations),
                None => Vec::new(),
            }
        } else {
            Vec::new()
        };
        let s = UsageSnapshot {
            rate_limit: response.rate_limit,
            available_resets: available,
            credit_expirations: expirations,
            fetched_at_ms: now_ms,
        };
        let kept = s.copy();
        self.note(account.id.as_str(), kept);
        Some(s)
    }

    /// Takes in the credits of an account, and gives those that can be spent.
    pub fn take_credits(&mut self, account_id: &str, credits: &Vec<Credit>) -> (r: Vec<Credit>)
        ensures
            r@ == usable(credits@),
            final(self)@ == old(self)@.credited(account_id@, expiries(usable(credits@))),
    {
        let found = usable_credits(credits);
        let ends = expiries_of(&found);
        if let Some(s) = self.snapshot(account_id) {
            let mut s = s;
            s.credit_expirations = ends;
            self.note(account_id, s);
        }
        found
    }
}

/// What a poll of the usage of an account leads to.
#[derive(Clone, Copy, Debug, PartialEq, Eq)]
pub struct PollEffects {
    /// The stored redemption of the account is over.
    pub clear_attempt: bool,
    /// The status to store.
    pub status: Option<(AccountStatus, i64)>,
    /// The credits of the account are to be read.
    pub read_credits: bool,
}

/// The usage of the account is polled.
pub fn is_polled(account: &Account) -> (r: bool)
    ensures
        r == (account.backend == BackendId::Codex && account.status != AccountStatus::Disabled),
{
    account.backend == BackendId::Codex && account.status != AccountStatus::Disabled
}

/// The status that usage gives an account, if it changes.
pub open spec fn polled_status(v: PoolView, id: Seq<char>, s: SnapshotView, now: int) -> Option<
    (AccountStatus, i64),
> {
    if !v.accounts.contains_key(id) || s.rate_limit is None {
        None
    } else {
        let a = v.accounts[id].account;
        if is_allowed(s) {
            if a.status == AccountStatus::Cooling {
                Some((AccountStatus::Healthy, 0i64))
            } else {
                None
            }
        } else {
            match recovery_of(s.rate_limit->0, now) {
                Some(recovery) => match cooling_deadline(a.status, a.reset_at, recovery) {
                    Some(t) => Some((AccountStatus::Cooling, t)),
                    None => None,
                },
                None => None,
            }
        }
    }
}

/// Takes the usage of an account into account: a cooling account that may be
/// used is healthy again, a blocked one cools until it recovers.
pub fn apply_poll(pool: &mut PoolCore, account_id: &str, usage: &UsageSnapshot, now_ms: i64) -> (r:
    PollEffects)
    requires
        old(pool).wf(),
    ensures
        final(pool).wf(),
        r == (PollEffects {
            clear_attempt: is_allowed(usage@),
            status: polled_status(old(pool)@, account_id@, usage@, now_ms as int),
            read_credits: usage.available_resets > 0,
        }),
        final(pool)@ == (match polled_status(old(pool)@, account_id@, usage@, now_ms as int) {
            Some((status, reset_at)) => old(pool)@.with_status(account_id@, status, reset_at),
            None => old(pool)@,
        }),
{
    let read_credits = usage.available_resets > 0;
    let (status, reset_at) = match pool.account(account_id) {
        Some(a) => (Some(a.status), a.reset_at),
        None => (None, 0),
    };
    let limit = match usage.rate_limit {
        Some(l) => l,
        None => return PollEffects { clear_attempt: false, status: None, read_credits },
    };
    let allowed = match limit.allowed {
        Some(b) => b,
        None => false,
    };
    let change: Option<(AccountStatus, i64)> = match status {
        Some(s) => if allowed {
            if s == AccountStatus::Cooling {
                Some((AccountStatus::Healthy, 0))
            } else {
                None
            }
        } else {
            match natural_recovery_ms(&limit, now_ms) {
                Some(recovery) => match blocked_cooling_deadline(s, reset_at, recovery) {
                    Some(t) => Some((AccountStatus::Cooling, t)),
                    None => None,
                },
                None => None,
            }
        },
        None => None,
    };
    if let Some((s, at)) = change {
        pool.set_status(account_id, s, at);
    }
    PollEffects { clear_attempt: allowed, status: change, read_credits }
}

/// A poll never ends the cooling of an account that is not allowed, nor moves its
/// deadline back; it never touches an account that is off or not signed in.
pub proof fn law_poll_never_shortens_cooling(v: PoolView, id: Seq<char>, s: SnapshotView, now: int)
    requires
        v.accounts.contains_key(id),
    ensures
        ({
            let a = v.accounts[id].account;
            match polled_status(v, id, s, now) {
                Some((status, at)) => {
                    &&& a.status == AccountStatus::Healthy || a.status == AccountStatus::Cooling
                    &&& status == AccountStatus::Healthy ==> is_allowed(s)
                    &&& status == AccountStatus::Cooling && a.status == AccountStatus::Cooling ==> at
                        > a.reset_at
                },
                None => true,
            }
        }),
{
}

// ---------------------------------------------------------------------------
// Redemption
// ---------------------------------------------------------------------------

/// A redemption as it is stored.
#[derive(Debug)]
pub struct LedgerRow {
    pub account_id: String,
    pub credit_id: String,
    pub request_id: String,
    pub state: String,
}

impl Clone for LedgerRow {
    fn clone(&self) -> (r: Self)
        ensures
            r == *self,
    {
        LedgerRow {
            account_id: self.account_id.clone(),
            credit_id: self.credit_id.clone(),
            request_id: self.request_id.clone(),
            state: self.state.clone(),
        }
    }
}

/// The stored redemption of an account.
pub open spec fn row_of(ledger: Seq<LedgerRow>, id: Seq<char>) -> Option<LedgerRow>
    decreases ledger.len(),
{
    if ledger.len() == 0 {
        None
    } else if ledger[0].account_id@ == id {
        Some(ledger[0])
    } else {
        row_of(ledger.skip(1), id)
    }
}

/// The outcome of the redemption is not known yet.
pub open spec fn is_pending(row: LedgerRow) -> bool {
    row.state@ == "pending"@
}

/// The account has a redemption whose outcome is not known yet.
pub open spec fn awaits(ledger: Seq<LedgerRow>, id: Seq<char>) -> bool {
    row_of(ledger, id) matches Some(row) && is_pending(row)
}

fn find_row(ledger: &Vec<LedgerRow>, id: &str) -> (r: Option<LedgerRow>)
    ensures
        r == row_of(ledger@, id@),
{
    assert(ledger@.skip(0) =~= ledger@);
    for i in 0..ledger.len()
        invariant
            row_of(ledger@, id@) == row_of(ledger@.skip(i as int), id@),
    {
        assert(ledger@.skip(i as int)[0] == ledger@[i as int]);
        assert(ledger@.skip(i as int).skip(1) =~= ledger@.skip(i + 1));
        if same(ledger[i].account_id.as_str(), id) {
            return Some(ledger[i].clone());
        }
    }
    None
}

/// The account is a Codex one that is cooling.
pub open spec fn codex_cooling(v: PoolView, id: Seq<char>) -> bool {
    v.accounts.contains_key(id) && v.accounts[id].account.backend == BackendId::Codex
        && v.accounts[id].account.status == AccountStatus::Cooling
}

/// The account is a Codex one that can serve.
pub open spec fn codex_healthy(v: PoolView, id: Seq<char>) -> bool {
    v.accounts.contains_key(id) && v.accounts[id].account.backend == BackendId::Codex
        && v.accounts[id].account.is_healthy()
}

/// Some Codex account can serve.
pub open spec fn codex_serves(v: PoolView) -> bool {
    exists|id: Seq<char>| codex_healthy(v, id)
}

/// No Codex account can serve, and some are cooling.
pub open spec fn outage(v: PoolView) -> bool {
    !codex_serves(v) && exists|id: Seq<char>| codex_cooling(v, id)
}

/// Some cooling account has a redemption whose outcome is not known yet.
pub open spec fn some_pending(v: PoolView, ledger: Seq<LedgerRow>) -> bool {
    exists|id: Seq<char>| #[trigger] codex_cooling(v, id) && awaits(ledger, id)
}

/// The account is considered for a reset: it is cooling; and where a redemption
/// is open, it is one of those with an open one.
pub open spec fn considered(v: PoolView, ledger: Seq<LedgerRow>, id: Seq<char>) -> bool {
    codex_cooling(v, id) && (some_pending(v, ledger) ==> awaits(ledger, id))
}

fn codex_can_serve(pool: &PoolCore) -> (r: bool)
    requires
        pool.wf(),
    ensures
        r == codex_serves(pool@),
{
    let states = pool.states();
    proof {
        lemma_account_map(states@);
    }
    for i in 0..states.len()
        invariant
            unique_ids(states@),
            account_map(states@) == pool@.accounts,
            forall|j: int|
                0 <= j < states@.len() ==> pool@.accounts.contains_key(
                    (#[trigger] states@[j]).account.id@,
                ) && pool@.accounts[states@[j].account.id@] == states@[j],
            forall|j: int|
                0 <= j < i ==> !codex_healthy(pool@, (#[trigger] states@[j]).account.id@),
    {
        if states[i].account.backend == BackendId::Codex && states[i].account.healthy() {
            assert(codex_healthy(pool@, states@[i as int].account.id@));
            return true;
        }
    }
    proof {
        if codex_serves(pool@) {
            let id = choose|id: Seq<char>| codex_healthy(pool@, id);
            let j = choose|j: int| 0 <= j < states@.len() && states@[j].account.id@ == id;
            assert(!codex_healthy(pool@, states@[j].account.id@));
        }
    }
    false
}

/// How far the search for a reset has come.
#[derive(Clone, Copy, Debug, PartialEq, Eq, Structural)]
pub enum RunPhase {
    /// The usage of the account is being read.
    Usage,
    /// The credits of the account are being read; it recovers at the given time.
    Credits { recovery_ms: i64 },
    /// The redemption is being stored.
    Save,
    /// The credit is being redeemed.
    Redeem,
    /// Usage is being read to see whether the redemption worked, this often
    /// more.
    Confirm { left: u8 },
    Over,
}

/// What happens in the search for a reset.
#[derive(Debug)]
pub enum RunEvent {
    /// The usage was read, or could not be.
    Usage(Option<UsageResponse>),
    /// The credits were read, or could not be.
    Credits(Option<Vec<Credit>>),
    Saved,
    /// The redemption was answered, or its outcome is not known.
    Consumed(Option<ConsumeCode>),
}

/// What the search for a reset does next.
#[derive(Debug)]
pub enum RunAction {
    ReadUsage(Account),
    ReadCredits(Account),
    /// The redemption is stored before it is made.
    Save { account_id: String, credit_id: String, request_id: String },
    Redeem { account: Account, credit_id: String, redemption_id: String },
    /// Usage is read again after half a second.
    Recheck(Account),
    /// The search is over: did an account recover?
    Done(bool),
}

pub enum RunActionView {
    ReadUsage(Account),
    ReadCredits(Account),
    Save { account_id: Seq<char>, credit_id: Seq<char> },
    Redeem { account: Account, credit_id: Seq<char>, redemption_id: Seq<char> },
    Recheck(Account),
    Done(bool),
}

impl View for RunAction {
    type V = RunActionView;

    open spec fn view(&self) -> RunActionView {
        match self {
            RunAction::ReadUsage(a) => RunActionView::ReadUsage(*a),
            RunAction::ReadCredits(a) => RunActionView::ReadCredits(*a),
            RunAction::Save { account_id, credit_id, .. } => RunActionView::Save {
                account_id: account_id@,
                credit_id: credit_id@,
            },
            RunAction::Redeem { account, credit_id, redemption_id } => RunActionView::Redeem {
                account: *account,
                credit_id: credit_id@,
                redemption_id: redemption_id@,
            },
            RunAction::Recheck(a) => RunActionView::Recheck(*a),
            RunAction::Done(b) => RunActionView::Done(*b),
        }
    }
}

/// What has to be stored of the account along with an action.
#[derive(Clone, Copy, Debug, PartialEq, Eq, Structural)]
pub struct RunEffects {
    /// The account is healthy again.
    pub readmit: bool,
    /// Its redemption is over and forgotten.
    pub clear: bool,
    /// Its redemption was made.
    pub complete: bool,
}

pub open spec fn nothing() -> RunEffects {
    RunEffects { readmit: false, clear: false, complete: false }
}

fn no_effects() -> (r: RunEffects)
    ensures
        r == nothing(),
{
    RunEffects { readmit: false, clear: false, complete: false }
}

/// The search for an account that a reset brings back.
#[derive(Debug)]
pub struct ResetRun {
    accounts: Vec<Account>,
    at: usize,
    candidates: Vec<Candidate>,
    now: i64,
    phase: RunPhase,
}

pub struct RunView {
    /// The accounts that are considered.
    pub accounts: Seq<Account>,
    /// The account that is being looked at.
    pub at: int,
    pub candidates: Seq<Candidate>,
    /// When the search began.
    pub now: int,
    pub phase: RunPhase,
}

impl View for ResetRun {
    type V = RunView;

    closed spec fn view(&self) -> RunView {
        RunView {
            accounts: self.accounts@,
            at: self.at as int,
            candidates: self.candidates@,
            now: self.now as int,
            phase: self.phase,
        }
    }
}

/// The first account with an id; behind the last where there is none.
pub open spec fn position(s: Seq<Account>, id: Seq<char>) -> int
    decreases s.len(),
{
    if s.len() == 0 {
        0
    } else if s[0].id@ == id {
        0
    } else {
        1 + position(s.skip(1), id)
    }
}

fn find_account(accounts: &Vec<Account>, id: &str) -> (r: usize)
    ensures
        r == position(accounts@, id@),
        r <= accounts@.len(),
{
    assert(accounts@.skip(0) =~= accounts@);
    for i in 0..accounts.len()
        invariant
            position(accounts@, id@) == i + position(accounts@.skip(i as int), id@),
    {
        assert(accounts@.skip(i as int)[0] == accounts@[i as int]);
        assert(accounts@.skip(i as int).skip(1) =~= accounts@.skip(i + 1));
        if same(accounts[i].id.as_str(), id) {
            return i;
        }
    }
    assert(accounts@.skip(accounts@.len() as int).len() == 0);
    accounts.len()
}

impl RunView {
    pub open spec fn valid(self) -> bool {
        0 <= self.at < self.accounts.len()
    }

    /// The account that is being looked at.
    pub open spec fn current(self) -> Account {
        self.accounts[self.at]
    }

    pub open spec fn done(self, recovered: bool) -> (RunView, RunActionView) {
        (RunView { phase: RunPhase::Over, ..self }, RunActionView::Done(recovered))
    }

    /// The stored redemption is made, while its outcome is not known.
    pub open spec fn redeeming(self, row: LedgerRow) -> (RunView, RunActionView) {
        if is_pending(row) {
            (
                RunView { phase: RunPhase::Redeem, ..self },
                RunActionView::Redeem {
                    account: self.current(),
                    credit_id: row.credit_id@,
                    redemption_id: row.request_id@,
                },
            )
        } else {
            self.done(false)
        }
    }

    /// All accounts were looked at: the best candidate is taken, if the pool is
    /// still out and the account still cooling.
    pub open spec fn choosing(self, ledger: Seq<LedgerRow>, pool: PoolView) -> (
        RunView,
        RunActionView,
    ) {
        match best_candidate(self.candidates) {
            None => self.done(false),
            Some(c) => {
                let k = position(self.accounts, c.account_id@);
                if k >= self.accounts.len() || codex_serves(pool) || !has_status(
                    pool,
                    c.account_id@,
                    AccountStatus::Cooling,
                ) {
                    self.done(false)
                } else {
                    let there = RunView { at: k, ..self };
                    match row_of(ledger, c.account_id@) {
                        None => (
                            RunView { phase: RunPhase::Save, ..there },
                            RunActionView::Save {
                                account_id: c.account_id@,
                                credit_id: c.credit_id@,
                            },
                        ),
                        Some(row) => there.redeeming(row),
                    }
                }
            },
        }
    }

    /// The next account is looked at, while there is one.
    pub open spec fn moving_on(self, ledger: Seq<LedgerRow>, pool: PoolView) -> (
        RunView,
        RunActionView,
    ) {
        if self.at + 1 < self.accounts.len() {
            (
                RunView { at: self.at + 1, phase: RunPhase::Usage, ..self },
                RunActionView::ReadUsage(self.accounts[self.at + 1]),
            )
        } else {
            self.choosing(ledger, pool)
        }
    }

    pub open spec fn with_candidate(self, recovery_ms: i64, credit_id: String, end: Option<i64>) -> RunView {
        RunView {
            candidates: self.candidates.push(
                Candidate {
                    account_id: self.current().id,
                    recovery_ms,
                    credit_id,
                    credit_expiry_ms: end,
                },
            ),
            ..self
        }
    }

    /// The search goes on after the usage of an account was read that may not be
    /// used.
    pub open spec fn weighing(self, s: SnapshotView, ledger: Seq<LedgerRow>, pool: PoolView) -> (
        RunView,
        RunActionView,
    ) {
        let recovery = match s.rate_limit {
            Some(l) => recovery_of(l, self.now),
            None => None,
        };
        match (recovery, row_of(ledger, self.current().id@)) {
            (None, _) => self.moving_on(ledger, pool),
            (Some(t), Some(row)) => if is_pending(row) {
                self.with_candidate(t, row.credit_id, None).moving_on(ledger, pool)
            } else {
                self.moving_on(ledger, pool)
            },
            (Some(t), None) => if s.available_resets == 0 {
                self.moving_on(ledger, pool)
            } else {
                (
                    RunView { phase: RunPhase::Credits { recovery_ms: t }, ..self },
                    RunActionView::ReadCredits(self.current()),
                )
            },
        }
    }

    /// The account may be used again.
    pub open spec fn recovered(self, pool: PoolView) -> (
        RunView,
        RunActionView,
        RunEffects,
        PoolView,
    ) {
        let id = self.current().id@;
        let (next, action) = self.done(true);
        (
            next,
            action,
            RunEffects {
                readmit: has_status(pool, id, AccountStatus::Cooling),
                clear: true,
                complete: false,
            },
            status_if(pool, id, AccountStatus::Cooling, AccountStatus::Healthy, 0),
        )
    }

    /// The event can come in this phase.
    pub open spec fn expects(self, event: RunEvent) -> bool {
        match event {
            RunEvent::Usage(_) => self.phase == RunPhase::Usage || (self.phase matches RunPhase::Confirm {
                left,
            } && left > 0),
            RunEvent::Credits(_) => self.phase is Credits,
            RunEvent::Saved => self.phase == RunPhase::Save,
            RunEvent::Consumed(_) => self.phase == RunPhase::Redeem,
        }
    }

    /// The manager after an event, and the usage that it reported.
    pub open spec fn noted(self, event: RunEvent, manager: ManagerView, fetched: int) -> (
        ManagerView,
        Option<SnapshotView>,
    ) {
        match event {
            RunEvent::Usage(Some(response)) => manager.reported(
                self.current(),
                response,
                fetched,
            ),
            RunEvent::Credits(Some(list)) => (
                manager.credited(self.current().id@, expiries(usable(list@))),
                None,
            ),
            _ => (manager, None),
        }
    }

    /// The search and the pool after an event, what to do next and what to
    /// store. `usage` is what the event reported.
    pub open spec fn after(
        self,
        event: RunEvent,
        usage: Option<SnapshotView>,
        ledger: Seq<LedgerRow>,
        pool: PoolView,
    ) -> (RunView, RunActionView, RunEffects, PoolView) {
        match event {
            RunEvent::Usage(_) => match (usage, self.phase) {
                (Some(s), _) if is_allowed(s) => self.recovered(pool),
                (_, RunPhase::Confirm { left }) => if left > 1 {
                    (
                        RunView { phase: RunPhase::Confirm { left: (left - 1) as u8 }, ..self },
                        RunActionView::Recheck(self.current()),
                        nothing(),
                        pool,
                    )
                } else {
                    let (next, action) = self.done(false);
                    (next, action, nothing(), pool)
                },
                (Some(s), _) => {
                    let (next, action) = self.weighing(s, ledger, pool);
                    (next, action, nothing(), pool)
                },
                (None, _) => {
                    let (next, action) = self.moving_on(ledger, pool);
                    (next, action, nothing(), pool)
                },
            },
            RunEvent::Credits(credits) => {
                let found = match credits {
                    Some(list) => first_credit(usable(list@)),
                    None => None,
                };
                let next = match found {
                    Some(c) => self.with_candidate(
                        self.phase->recovery_ms,
                        c.id,
                        expiry_of(opt_view(c.expires_at)),
                    ),
                    None => self,
                };
                let (next, action) = next.moving_on(ledger, pool);
                (next, action, nothing(), pool)
            },
            RunEvent::Saved => {
                let (next, action) = match row_of(ledger, self.current().id@) {
                    Some(row) => self.redeeming(row),
                    None => self.done(false),
                };
                (next, action, nothing(), pool)
            },
            RunEvent::Consumed(code) => match code {
                Some(ConsumeCode::Reset) | Some(ConsumeCode::AlreadyRedeemed) => (
                    RunView { phase: RunPhase::Confirm { left: CONFIRMATIONS }, ..self },
                    RunActionView::ReadUsage(self.current()),
                    RunEffects { readmit: false, clear: false, complete: true },
                    pool,
                ),
                Some(ConsumeCode::NothingToReset) | Some(ConsumeCode::NoCredit) => {
                    let (next, action) = self.done(false);
                    (
                        next,
                        action,
                        RunEffects { readmit: false, clear: true, complete: false },
                        pool,
                    )
                },
                None => {
                    let (next, action) = self.done(false);
                    (next, action, nothing(), pool)
                },
            },
        }
    }

    /// How many steps the search can still take.
    pub open spec fn steps_left(self) -> int {
        match self.phase {
            RunPhase::Usage => 2 * (self.accounts.len() - self.at) + 6,
            RunPhase::Credits { .. } => 2 * (self.accounts.len() - self.at) + 5,
            RunPhase::Save => 6,
            RunPhase::Redeem => 5,
            RunPhase::Confirm { left } => 1 + left,
            RunPhase::Over => 0,
        }
    }
}

impl ResetRun {
    /// The account that is being looked at.
    pub fn current(&self) -> (r: &Account)
        requires
            self@.valid(),
        ensures
            *r == self@.current(),
    {
        &self.accounts[self.at]
    }

    /// The accounts that are considered.
    pub fn considered(&self) -> (r: usize)
        ensures
            r == self@.accounts.len(),
    {
        self.accounts.len()
    }

    fn done(&mut self, recovered: bool) -> (r: RunAction)
        ensures
            (final(self)@, r@) == old(self)@.done(recovered),
    {
        self.phase = RunPhase::Over;
        RunAction::Done(recovered)
    }

    fn redeem(&mut self, row: &LedgerRow) -> (r: RunAction)
        requires
            old(self)@.valid(),
        ensures
            (final(self)@, r@) == old(self)@.redeeming(*row),
    {
        if same(row.state.as_str(), "pending") {
            self.phase = RunPhase::Redeem;
            RunAction::Redeem {
                account: self.accounts[self.at].clone(),
                credit_id: row.credit_id.clone(),
                redemption_id: row.request_id.clone(),
            }
        } else {
            self.done(false)
        }
    }

    fn choose_account(&mut self, ledger: &Vec<LedgerRow>, pool: &PoolCore) -> (r: RunAction)
        requires
            old(self)@.valid(),
            pool.wf(),
        ensures
            (final(self)@, r@) == old(self)@.choosing(ledger@, pool@),
            r matches RunAction::Save { request_id, .. } ==> is_uuid_text(request_id@),
    {
        let c = match choose_candidate(&self.candidates) {
            Some(c) => c,
            None => return self.done(false),
        };
        let k = find_account(&self.accounts, c.account_id.as_str());
        let still_cooling = match pool.account(c.account_id.as_str()) {
            Some(a) => a.status == AccountStatus::Cooling,
            None => false,
        };
        if k >= self.accounts.len() || codex_can_serve(pool) || !still_cooling {
            return self.done(false);
        }
        self.at = k;
        match find_row(ledger, c.account_id.as_str()) {
            None => {
                self.phase = RunPhase::Save;
                RunAction::Save {
                    account_id: c.account_id,
                    credit_id: c.credit_id,
                    request_id: new_id(),
                }
            },
            Some(row) => self.redeem(&row),
        }
    }

    fn move_on(&mut self, ledger: &Vec<LedgerRow>, pool: &PoolCore) -> (r: RunAction)
        requires
            old(self)@.valid(),
            pool.wf(),
        ensures
            (final(self)@, r@) == old(self)@.moving_on(ledger@, pool@),
            r matches RunAction::Save { request_id, .. } ==> is_uuid_text(request_id@),
    {
        if self.at < self.accounts.len() - 1 {
            self.at = self.at + 1;
            self.phase = RunPhase::Usage;
            RunAction::ReadUsage(self.accounts[self.at].clone())
        } else {
            self.choose_account(ledger, pool)
        }
    }

    fn add_candidate(&mut self, recovery_ms: i64, credit_id: String, end: Option<i64>)
        requires
            old(self)@.valid(),
        ensures
            final(self)@ == old(self)@.with_candidate(recovery_ms, credit_id, end),
    {
        let c = Candidate {
            account_id: self.accounts[self.at].id.clone(),
            recovery_ms,
            credit_id,
            credit_expiry_ms: end,
        };
        self.candidates.push(c);
    }

    fn weigh(&mut self, s: &UsageSnapshot, ledger: &Vec<LedgerRow>, pool: &PoolCore) -> (r:
        RunAction)
        requires
            old(self)@.valid(),
            pool.wf(),
        ensures
            (final(self)@, r@) == old(self)@.weighing(s@, ledger@, pool@),
            r matches RunAction::Save { request_id, .. } ==> is_uuid_text(request_id@),
    {
        let recovery = match &s.rate_limit {
            Some(l) => natural_recovery_ms(l, self.now),
            None => None,
        };
        let t = match recovery {
            Some(t) => t,
            None => return self.move_on(ledger, pool),
        };
        match find_row(ledger, self.accounts[self.at].id.as_str()) {
            Some(row) => {
                if same(row.state.as_str(), "pending") {
                    self.add_candidate(t, row.credit_id, None);
                }
                self.move_on(ledger, pool)
            },
            None => {
                if s.available_resets == 0 {
                    self.move_on(ledger, pool)
                } else {
                    self.phase = RunPhase::Credits { recovery_ms: t };
                    RunAction::ReadCredits(self.accounts[self.at].clone())
                }
            },
        }
    }

    /// Takes the search one step further: what to do next and what to store of
    /// the account that is being looked at. `ledger` holds the redemptions as
    /// they are stored now.
    pub fn step(
        &mut self,
        event: RunEvent,
        manager: &mut ResetManager,
        ledger: &Vec<LedgerRow>,
        pool: &mut PoolCore,
        fetched_at_ms: i64,
    ) -> (r: (RunAction, RunEffects))
        requires
            old(self)@.valid(),
            old(self)@.expects(event),
            old(pool).wf(),
        ensures
            final(pool).wf(),
            final(self)@.valid(),
            final(manager)@ == old(self)@.noted(event, old(manager)@, fetched_at_ms as int).0,
            (final(self)@, r.0@, r.1, final(pool)@) == old(self)@.after(
                event,
                old(self)@.noted(event, old(manager)@, fetched_at_ms as int).1,
                ledger@,
                old(pool)@,
            ),
            r.0 matches RunAction::Save { request_id, .. } ==> is_uuid_text(request_id@),
    {
        match event {
            RunEvent::Usage(response) => {
                let usage = match response {
                    Some(u) => manager.take_usage(&self.accounts[self.at], u, fetched_at_ms),
                    None => None,
                };
                let allowed = match &usage {
                    Some(s) => match &s.rate_limit {
                        Some(l) => match l.allowed {
                            Some(b) => b,
                            None => false,
                        },
                        None => false,
                    },
                    None => false,
                };
                if allowed {
                    let readmit = set_status_if(
                        pool,
                        self.accounts[self.at].id.as_str(),
                        AccountStatus::Cooling,
                        AccountStatus::Healthy,
                        0,
                    );
                    let action = self.done(true);
                    return (action, RunEffects { readmit, clear: true, complete: false });
                }
                if let RunPhase::Confirm { left } = self.phase {
                    if left > 1 {
                        self.phase = RunPhase::Confirm { left: left - 1 };
                        let account = self.accounts[self.at].clone();
                        return (RunAction::Recheck(account), no_effects());
                    }
                    return (self.done(false), no_effects());
                }
                match usage {
                    Some(s) => (self.weigh(&s, ledger, pool), no_effects()),
                    None => (self.move_on(ledger, pool), no_effects()),
                }
            },
            RunEvent::Credits(credits) => {
                let recovery_ms = match self.phase {
                    RunPhase::Credits { recovery_ms } => recovery_ms,
                    _ => 0,
                };
                if let Some(list) = credits {
                    let found = manager.take_credits(self.accounts[self.at].id.as_str(), &list);
                    if let Some(c) = soonest_credit(&found) {
                        let end = credit_expiry(&c);
                        self.add_candidate(recovery_ms, c.id, end);
                    }
                }
                (self.move_on(ledger, pool), no_effects())
            },
            RunEvent::Saved => {
                let action = match find_row(ledger, self.accounts[self.at].id.as_str()) {
                    Some(row) => self.redeem(&row),
                    None => self.done(false),
                };
                (action, no_effects())
            },
            RunEvent::Consumed(code) => match code {
                Some(ConsumeCode::Reset) | Some(ConsumeCode::AlreadyRedeemed) => {
                    self.phase = RunPhase::Confirm { left: CONFIRMATIONS };
                    let account = self.accounts[self.at].clone();
                    (
                        RunAction::ReadUsage(account),
                        RunEffects { readmit: false, clear: false, complete: true },
                    )
                },
                Some(ConsumeCode::NothingToReset) | Some(ConsumeCode::NoCredit) => (
                    self.done(false),
                    RunEffects { readmit: false, clear: true, complete: false },
                ),
                None => (self.done(false), no_effects()),
            },
        }
    }
}

/// The accounts are those that are considered, each once.
pub open spec fn lists_considered(
    accounts: Seq<Account>,
    v: PoolView,
    ledger: Seq<LedgerRow>,
) -> bool {
    &&& forall|i: int|
        0 <= i < accounts.len() ==> considered(v, ledger, (#[trigger] accounts[i]).id@)
            && v.accounts[accounts[i].id@].account == accounts[i]
    &&& forall|i: int, j: int|
        0 <= i < j < accounts.len() ==> (#[trigger] accounts[i]).id@ != (#[trigger] accounts[j]).id@
    &&& forall|id: Seq<char>| #[trigger]
        considered(v, ledger, id) ==> has_id(accounts, id)
}

impl ResetManager {
    /// Begins a search for a reset: only where resets are enabled, no Codex
    /// account can serve, some are cooling, and the last search is long enough
    /// ago.
    pub fn begin(&mut self, pool: &mut PoolCore, ledger: &Vec<LedgerRow>, now_ms: i64) -> (r: Option<
        (ResetRun, RunAction),
    >)
        requires
            old(pool).wf(),
        ensures
            final(pool).wf(),
            final(pool)@ == (if old(self)@.enabled {
                old(pool)@.swept(now_ms as int)
            } else {
                old(pool)@
            }),
            r is Some <==> old(self)@.enabled && outage(old(pool)@.swept(now_ms as int)) && clamped(
                now_ms - old(self)@.last_check_ms,
            ) >= CHECK_INTERVAL_MS,
            final(self)@ == (ManagerView {
                last_check_ms: if r is Some {
                    now_ms as int
                } else {
                    old(self)@.last_check_ms
                },
                ..old(self)@
            }),
            match r {
                Some((run, action)) => {
                    &&& run@.valid()
                    &&& lists_considered(run@.accounts, final(pool)@, ledger@)
                    &&& run@ == (RunView {
                        accounts: run@.accounts,
                        at: 0,
                        candidates: Seq::empty(),
                        now: now_ms as int,
                        phase: RunPhase::Usage,
                    })
                    &&& action@ == RunActionView::ReadUsage(run@.accounts[0])
                },
                None => true,
            },
    {
        if !self.enabled {
            return None;
        }
        let _readmitted = pool.sweep(now_ms);
        if codex_can_serve(pool) {
            return None;
        }
        let cooling = wanted_accounts(pool, ledger, false);
        if cooling.len() == 0 {
            proof {
                if exists|id: Seq<char>| codex_cooling(pool@, id) {
                    let id = choose|id: Seq<char>| codex_cooling(pool@, id);
                    assert(wanted_id(pool@, ledger@, id, false));
                }
            }
            return None;
        }
        proof {
            assert(codex_cooling(pool@, cooling@[0].id@));
        }
        if minus(now_ms, self.last_check_ms) < CHECK_INTERVAL_MS {
            return None;
        }
        self.last_check_ms = now_ms;
        let open = wanted_accounts(pool, ledger, true);
        let accounts = if open.len() > 0 {
            proof {
                assert(wanted_id(pool@, ledger@, open@[0].id@, true));
                lemma_considered(open@, pool@, ledger@, true);
            }
            open
        } else {
            proof {
                if some_pending(pool@, ledger@) {
                    let id = choose|id: Seq<char>| #[trigger]
                        codex_cooling(pool@, id) && awaits(ledger@, id);
                    assert(wanted_id(pool@, ledger@, id, true));
                }
                lemma_considered(cooling@, pool@, ledger@, false);
            }
            cooling
        };
        let first = accounts[0].clone();
        let run = ResetRun {
            accounts,
            at: 0,
            candidates: Vec::new(),
            now: now_ms,
            phase: RunPhase::Usage,
        };
        Some((run, RunAction::ReadUsage(first)))
    }
}

/// The account is cooling, and has an open redemption if that is asked.
spec fn wanted_id(v: PoolView, ledger: Seq<LedgerRow>, id: Seq<char>, open: bool) -> bool {
    codex_cooling(v, id) && (open ==> awaits(ledger, id))
}

/// The list has an account with this id.
pub open spec fn has_id(s: Seq<Account>, id: Seq<char>) -> bool {
    exists|i: int| 0 <= i < s.len() && s[i].id@ == id
}

/// The accounts are those that are wanted, each once.
spec fn lists_wanted(s: Seq<Account>, v: PoolView, ledger: Seq<LedgerRow>, open: bool) -> bool {
    &&& forall|i: int|
        0 <= i < s.len() ==> wanted_id(v, ledger, (#[trigger] s[i]).id@, open)
            && v.accounts[s[i].id@].account == s[i]
    &&& forall|i: int, j: int|
        0 <= i < j < s.len() ==> (#[trigger] s[i]).id@ != (#[trigger] s[j]).id@
    &&& forall|id: Seq<char>| #[trigger] wanted_id(v, ledger, id, open) ==> has_id(s, id)
}

proof fn lemma_considered(s: Seq<Account>, v: PoolView, ledger: Seq<LedgerRow>, open: bool)
    requires
        lists_wanted(s, v, ledger, open),
        open == some_pending(v, ledger),
    ensures
        lists_considered(s, v, ledger),
{
    assert forall|i: int| 0 <= i < s.len() implies considered(v, ledger, (#[trigger] s[i]).id@)
        && v.accounts[s[i].id@].account == s[i] by {
        assert(wanted_id(v, ledger, s[i].id@, open));
    }
    assert forall|id: Seq<char>| #[trigger] considered(v, ledger, id) implies has_id(s, id) by {
        assert(wanted_id(v, ledger, id, open));
    }
}

/// The accounts of the pool that are cooling, with an open redemption if that is
/// asked.
fn wanted_accounts(pool: &PoolCore, ledger: &Vec<LedgerRow>, open: bool) -> (r: Vec<Account>)
    requires
        pool.wf(),
    ensures
        lists_wanted(r@, pool@, ledger@, open),
{
    let states = pool.states();
    proof {
        lemma_account_map(states@);
    }
    let mut out: Vec<Account> = Vec::new();
    for i in 0..states.len()
        invariant
            unique_ids(states@),
            forall|j: int|
                0 <= j < states@.len() ==> pool@.accounts.contains_key(
                    (#[trigger] states@[j]).account.id@,
                ) && pool@.accounts[states@[j].account.id@] == states@[j],
            forall|k: int|
                0 <= k < out@.len() ==> wanted_id(pool@, ledger@, (#[trigger] out@[k]).id@, open)
                    && pool@.accounts[out@[k].id@].account == out@[k],
            forall|k: int, m: int|
                0 <= k < m < out@.len() ==> (#[trigger] out@[k]).id@ != (#[trigger] out@[m]).id@,
            forall|k: int, j: int|
                0 <= k < out@.len() && i <= j < states@.len() ==> (#[trigger] out@[k]).id@ != (
                #[trigger] states@[j]).account.id@,
            forall|j: int|
                0 <= j < i && wanted_id(
                    pool@,
                    ledger@,
                    (#[trigger] states@[j]).account.id@,
                    open,
                ) ==> has_id(out@, states@[j].account.id@),
    {
        let a = &states[i].account;
        let wanted = a.backend == BackendId::Codex && a.status == AccountStatus::Cooling && (!open
            || match find_row(ledger, a.id.as_str()) {
            Some(row) => same(row.state.as_str(), "pending"),
            None => false,
        });
        assert(wanted == wanted_id(pool@, ledger@, a.id@, open));
        if wanted {
            let ghost before = out@;
            out.push(a.clone());
            proof {
                assert forall|id: Seq<char>| has_id(before, id) implies #[trigger] has_id(
                    out@,
                    id,
                ) by {
                    let k = choose|k: int| 0 <= k < before.len() && before[k].id@ == id;
                    assert(out@[k].id@ == id);
                }
                assert(out@[before.len() as int].id@ == states@[i as int].account.id@);
                assert forall|k: int, j: int|
                    0 <= k < out@.len() && i + 1 <= j < states@.len() implies (
                #[trigger] out@[k]).id@ != (#[trigger] states@[j]).account.id@ by {
                    if k == before.len() {
                        assert(states@[i as int].account.id@ != states@[j].account.id@);
                    } else {
                        assert(before[k].id@ != states@[j].account.id@);
                    }
                }
                assert forall|k: int, m: int| 0 <= k < m < out@.len() implies (
                #[trigger] out@[k]).id@ != (#[trigger] out@[m]).id@ by {
                    if m == before.len() {
                        assert(before[k].id@ != states@[i as int].account.id@);
                    } else {
                        assert(before[k].id@ != before[m].id@);
                    }
                }
            }
        }
    }
    proof {
        assert forall|id: Seq<char>| #[trigger]
            wanted_id(pool@, ledger@, id, open) implies has_id(out@, id) by {
            let j = choose|j: int| 0 <= j < states@.len() && states@[j].account.id@ == id;
            assert(wanted_id(pool@, ledger@, states@[j].account.id@, open));
        }
    }
    out
}

// ---------------------------------------------------------------------------
// Laws of redemption
// ---------------------------------------------------------------------------

/// A redemption is stored or made for the first time only while no Codex account
/// can serve and the chosen one is cooling.
pub proof fn law_redemption_needs_an_outage(
    run: RunView,
    event: RunEvent,
    usage: Option<SnapshotView>,
    ledger: Seq<LedgerRow>,
    pool: PoolView,
)
    requires
        run.valid(),
        run.expects(event),
        run.phase != RunPhase::Save,
    ensures
        ({
            let (next, action, _, _) = run.after(event, usage, ledger, pool);
            &&& action matches RunActionView::Save { account_id, .. } ==> !codex_serves(pool)
                && has_status(pool, account_id, AccountStatus::Cooling)
            &&& action is Redeem ==> !codex_serves(pool)
        }),
{
}

/// One search redeems at most one credit: once it has, it neither stores nor
/// makes another redemption.
pub proof fn law_one_redemption_per_search(
    run: RunView,
    event: RunEvent,
    usage: Option<SnapshotView>,
    ledger: Seq<LedgerRow>,
    pool: PoolView,
)
    requires
        run.valid(),
        run.expects(event),
        run.phase == RunPhase::Redeem || run.phase is Confirm,
    ensures
        ({
            let (next, action, _, _) = run.after(event, usage, ledger, pool);
            &&& !(action is Redeem) && !(action is Save)
            &&& next.phase is Confirm || next.phase == RunPhase::Over
        }),
{
}

/// A redemption is made under the stored credit and request id, and only while
/// its outcome is not known: so a retry spends no second credit, and one that
/// was made is not repeated.
pub proof fn law_redemption_follows_the_ledger(
    run: RunView,
    event: RunEvent,
    usage: Option<SnapshotView>,
    ledger: Seq<LedgerRow>,
    pool: PoolView,
)
    requires
        run.valid(),
        run.expects(event),
    ensures
        run.after(event, usage, ledger, pool).1 matches RunActionView::Redeem {
            account,
            credit_id,
            redemption_id,
        } ==> row_of(ledger, account.id@) matches Some(row) && is_pending(row) && row.credit_id@
            == credit_id && row.request_id@ == redemption_id,
{
    assert forall|c: Candidate| position(run.accounts, c.account_id@) < run.accounts.len() implies (
    #[trigger] run.accounts[position(run.accounts, c.account_id@)]).id@ == c.account_id@ by {
        lemma_position(run.accounts, c.account_id@);
    }
    assert forall|id: Seq<char>| #[trigger] position(run.accounts, id)
        < run.accounts.len() implies run.accounts[position(run.accounts, id)].id@ == id by {
        lemma_position(run.accounts, id);
    }
}

pub proof fn lemma_position(s: Seq<Account>, id: Seq<char>)
    ensures
        0 <= position(s, id) <= s.len(),
        position(s, id) < s.len() ==> s[position(s, id)].id@ == id,
    decreases s.len(),
{
    if s.len() > 0 && s[0].id@ != id {
        lemma_position(s.skip(1), id);
        if position(s, id) < s.len() {
            assert(s.skip(1)[position(s.skip(1), id)] == s[position(s, id)]);
        }
    }
}

/// A search says that an account recovered only when upstream says that it may be
/// used, and an account is readmitted only then.
pub proof fn law_recovery_is_confirmed(
    run: RunView,
    event: RunEvent,
    usage: Option<SnapshotView>,
    ledger: Seq<LedgerRow>,
    pool: PoolView,
)
    requires
        run.valid(),
        run.expects(event),
    ensures
        ({
            let (_, action, effects, after) = run.after(event, usage, ledger, pool);
            &&& action == RunActionView::Done(true) ==> usage is Some && is_allowed(usage->0)
            &&& effects.readmit ==> action == RunActionView::Done(true)
            &&& after != pool ==> action == RunActionView::Done(true)
        }),
{
}

/// Every search comes to an end: each step leaves fewer steps.
pub proof fn law_search_ends(
    run: RunView,
    event: RunEvent,
    usage: Option<SnapshotView>,
    ledger: Seq<LedgerRow>,
    pool: PoolView,
)
    requires
        run.valid(),
        run.expects(event),
    ensures
        run.after(event, usage, ledger, pool).0.valid(),
        0 <= run.after(event, usage, ledger, pool).0.steps_left() < run.steps_left(),
{
    assert forall|id: Seq<char>| 0 <= #[trigger] position(run.accounts, id) by {
        lemma_position(run.accounts, id);
    }
}

} // verus!
