//! What a search for a banked reset does, said of what upstream reported of each
//! account.
use crate::models::{Account, AccountStatus, BackendId};
use crate::pool::PoolView;
use crate::resets::{
    best_candidate, blocked, considered, cooling_deadline, credit_end, ends_first, expiries,
    expiry_of, first_credit, has_status, is_best, is_usable, lemma_outranks, lists_considered,
    outage, outranks, polled_status, recovery_of, rfc3339_secs, row_of, snapshot_of, status_if,
    usable, window_recovery, Candidate, Credit, LedgerRow, ManagerView, RateLimit, SnapshotView,
    UsageResponse, Window, CHECK_INTERVAL_MS,
};
use crate::text::{below, law_order_total, opt_view};
use vstd::prelude::*;

verus! {

// ---------------------------------------------------------------------------
// Quota
// ---------------------------------------------------------------------------

/// The window is used up to at least 99 percent, and resets at this time, which
/// lies ahead.
pub open spec fn holds_until(w: Option<Window>, now: int, t: i64) -> bool {
    &&& w matches Some(w) && w.used_percent >= 99 && (w.reset_at matches Some(secs) && t == secs
        * 1000)
    &&& t > now
}

/// Upstream blocks the account for its quota, and it comes back at this time: with
/// the last of its windows that hold it.
pub open spec fn recovers_at(l: RateLimit, now: int, t: i64) -> bool {
    &&& l.allowed == Some(false)
    &&& l.limit_reached != Some(false)
    &&& holds_until(l.primary_window, now, t) || holds_until(l.secondary_window, now, t)
    &&& forall|u: i64| #[trigger] holds_until(l.primary_window, now, u) ==> u <= t
    &&& forall|u: i64| #[trigger] holds_until(l.secondary_window, now, u) ==> u <= t
}

proof fn lemma_window(w: Option<Window>, now: int, t: i64)
    ensures
        window_recovery(w, now) == Some(t) <==> holds_until(w, now, t),
{
}

/// An account comes back by itself at the latest reset of the windows that hold it,
/// and only if upstream blocks it for its quota.
pub proof fn law_natural_recovery_is_the_latest_reset(l: RateLimit, now: int, t: i64)
    ensures
        recovery_of(l, now) == Some(t) <==> recovers_at(l, now, t),
{
    let a = window_recovery(l.primary_window, now);
    let b = window_recovery(l.secondary_window, now);
    lemma_window(l.primary_window, now, t);
    lemma_window(l.secondary_window, now, t);
    assert forall|u: i64| #[trigger] holds_until(l.primary_window, now, u) implies a == Some(u) by {
        lemma_window(l.primary_window, now, u);
    }
    assert forall|u: i64| #[trigger] holds_until(l.secondary_window, now, u) implies b == Some(
        u,
    ) by {
        lemma_window(l.secondary_window, now, u);
    }
    if let Some(x) = a {
        lemma_window(l.primary_window, now, x);
    }
    if let Some(y) = b {
        lemma_window(l.secondary_window, now, y);
    }
}

/// What upstream says of a polled account is followed: one that cools although
/// upstream allows it is healthy; a healthy one that upstream blocks cools until it
/// comes back, and one that cools already does so if that is later. One
/// that is rejected or disabled is left alone, and so is one of which upstream
/// says neither.
pub proof fn law_poll_follows_upstream(
    v: PoolView,
    id: Seq<char>,
    s: SnapshotView,
    now: int,
    t: i64,
)
    ensures
        ({
            let r = polled_status(v, id, s, now);
            let a = v.accounts[id].account;
            let known = v.accounts.contains_key(id);
            let allowed = s.rate_limit matches Some(l) && l.allowed == Some(true);
            let until = s.rate_limit matches Some(l) && recovers_at(l, now, t);
            &&& !known || s.rate_limit is None ==> r is None
            &&& known && allowed && a.status == AccountStatus::Cooling ==> r == Some(
                (AccountStatus::Healthy, 0i64),
            )
            &&& known && until && a.status == AccountStatus::Healthy ==> r == Some(
                (AccountStatus::Cooling, t),
            )
            &&& known && until && a.status == AccountStatus::Cooling ==> r == (if t > a.reset_at {
                Some((AccountStatus::Cooling, t))
            } else {
                None
            })
            &&& known && (a.status == AccountStatus::AuthError || a.status
                == AccountStatus::Disabled) ==> r is None
            &&& known && allowed && a.status != AccountStatus::Cooling ==> r is None
            &&& known && s.rate_limit is Some && !allowed && (forall|u: i64|
                !#[trigger] recovers_at(s.rate_limit->0, now, u)) ==> r is None
        }),
{
    if let Some(l) = s.rate_limit {
        law_natural_recovery_is_the_latest_reset(l, now, t);
        if let Some(u) = recovery_of(l, now) {
            law_natural_recovery_is_the_latest_reset(l, now, u);
            assert(recovers_at(l, now, u));
        }
    }
}

/// A report of usage is taken over as it is: its quota, as many credits as it names
/// and none if that is negative or missing, and the time at which it was read. The
/// ends of the credits stay known while there are credits.
pub proof fn law_snapshot_is_what_was_reported(
    r: UsageResponse,
    before: Option<SnapshotView>,
    now: int,
)
    ensures
        ({
            let s = snapshot_of(r, before, now);
            &&& s.rate_limit == r.rate_limit
            &&& s.fetched_at_ms == now
            &&& r.available_count is Some && r.available_count->0 >= 0 ==> s.available_resets
                == r.available_count->0
            &&& r.available_count is Some && r.available_count->0 < 0 ==> s.available_resets == 0
            &&& r.available_count is None ==> s.available_resets == 0
            &&& s.available_resets == 0 ==> s.credit_expirations.len() == 0
            &&& s.available_resets > 0 && before is Some ==> s.credit_expirations
                == before->0.credit_expirations
        }),
{
}

/// A report is not taken where it names another account; else it is kept for the
/// account, and for no other.
pub proof fn law_report_is_kept_for_its_account(
    m: ManagerView,
    account: Account,
    r: UsageResponse,
    now: int,
    other: Seq<char>,
)
    ensures
        ({
            let (after, s) = m.reported(account, r, now);
            let wrong = r.account_id is Some && account.account_id is Some && r.account_id->0@
                != account.account_id->0@;
            &&& wrong ==> after == m && s is None
            &&& !wrong ==> s is Some && after.snapshots.contains_key(account.id@)
                && after.snapshots[account.id@] == s->0 && s->0.rate_limit == r.rate_limit
                && s->0.fetched_at_ms == now
            &&& other != account.id@ ==> (after.snapshots.contains_key(other)
                <==> m.snapshots.contains_key(other))
            &&& other != account.id@ && m.snapshots.contains_key(other) ==> after.snapshots[other]
                == m.snapshots[other]
            &&& after.enabled == m.enabled && after.last_check_ms == m.last_check_ms
        }),
{
}

// ---------------------------------------------------------------------------
// Credits and candidates
// ---------------------------------------------------------------------------

/// When something ends; what has no end counts as the last.
pub open spec fn end_or_last(at: Option<i64>) -> int {
    match at {
        Some(t) => t as int,
        None => 0x7fff_ffff_ffff_ffff,
    }
}

/// The credits that can be spent are those for the Codex quota that are available.
pub proof fn law_usable_credits_are_available_ones(s: Seq<Credit>, c: Credit)
    ensures
        usable(s).contains(c) <==> s.contains(c) && c.reset_type@ == "codex_rate_limits"@
            && c.status@ == "available"@,
    decreases s.len(),
{
    if s.len() > 0 {
        let head = s.drop_last();
        law_usable_credits_are_available_ones(head, c);
        let u = usable(head);
        assert(s.contains(c) <==> head.contains(c) || s.last() == c) by {
            if s.contains(c) {
                let i = choose|i: int| 0 <= i < s.len() && s[i] == c;
                if i < head.len() {
                    assert(head[i] == c);
                }
            }
            if head.contains(c) {
                let i = choose|i: int| 0 <= i < head.len() && head[i] == c;
                assert(s[i] == c);
            }
            assert(s[s.len() - 1] == s.last());
        }
        if is_usable(s.last()) {
            let w = usable(s);
            assert(w == u.push(s.last()));
            if w.contains(c) {
                let i = choose|i: int| 0 <= i < w.len() && w[i] == c;
                if i < u.len() {
                    assert(u[i] == c);
                }
            }
            if u.contains(c) {
                let i = choose|i: int| 0 <= i < u.len() && u[i] == c;
                assert(w[i] == c);
            }
            assert(w[u.len() as int] == s.last());
        }
    }
}

/// The end of a credit is the instant that its text names, in milliseconds.
pub proof fn law_credit_end_is_its_date(text: Seq<char>, secs: i64)
    ensures
        expiry_of(None) is None,
        rfc3339_secs(text) is None ==> expiry_of(Some(text)) is None,
        rfc3339_secs(text) == Some(secs) && -9_223_372_036_854_775 <= secs
            <= 9_223_372_036_854_775 ==> (expiry_of(Some(text)) matches Some(t) && t == secs * 1000),
{
}

proof fn lemma_first_exists(s: Seq<Credit>)
    requires
        s.len() > 0,
    ensures
        exists|k: int| ends_first(s, k),
    decreases s.len(),
{
    let head = s.drop_last();
    let n = s.len() - 1;
    let e = expiries(s);
    assert forall|i: int| 0 <= i < n implies #[trigger] expiries(head)[i] == e[i] by {}
    if head.len() == 0 {
        assert(ends_first(s, 0));
    } else {
        lemma_first_exists(head);
        let k = choose|k: int| ends_first(head, k);
        let h = expiries(head);
        assert forall|j: int| 0 <= j < n implies credit_end(e[k]) <= credit_end(
            #[trigger] e[j],
        ) by {
            assert(h[j] == e[j] && h[k] == e[k]);
        }
        assert forall|j: int| 0 <= j < k implies credit_end(e[k]) < credit_end(#[trigger] e[j]) by {
            assert(h[j] == e[j] && h[k] == e[k]);
        }
        if credit_end(e[n]) < credit_end(e[k]) {
            assert(ends_first(s, n));
        } else {
            assert(ends_first(s, k));
        }
    }
}

/// Of the credits that can be spent, the one that ends first is spent.
pub proof fn law_credit_that_ends_first_is_spent(s: Seq<Credit>, d: Credit)
    ensures
        s.len() == 0 ==> first_credit(s) is None,
        s.contains(d) ==> (first_credit(s) matches Some(c) && s.contains(c) && end_or_last(
            expiry_of(opt_view(c.expires_at)),
        ) <= end_or_last(expiry_of(opt_view(d.expires_at)))),
{
    if s.len() > 0 {
        lemma_first_exists(s);
        let k = choose|k: int| ends_first(s, k);
        assert(ends_first(s, k));
        if s.contains(d) {
            let j = choose|j: int| 0 <= j < s.len() && s[j] == d;
            assert(credit_end(expiries(s)[k]) <= credit_end(expiries(s)[j]));
        }
    }
}

/// The first candidate comes before the second: it is blocked for longer; or as
/// long, and its credit ends sooner; or as soon, and its id is not the later one.
pub open spec fn goes_first(a: Candidate, b: Candidate) -> bool {
    ||| a.recovery_ms > b.recovery_ms
    ||| a.recovery_ms == b.recovery_ms && end_or_last(a.credit_expiry_ms) < end_or_last(
        b.credit_expiry_ms,
    )
    ||| a.recovery_ms == b.recovery_ms && end_or_last(a.credit_expiry_ms) == end_or_last(
        b.credit_expiry_ms,
    ) && (a.account_id@ == b.account_id@ || below(a.account_id@, b.account_id@))
}

proof fn lemma_best_exists(s: Seq<Candidate>)
    requires
        s.len() > 0,
    ensures
        exists|k: int| is_best(s, k),
    decreases s.len(),
{
    let head = s.drop_last();
    let n = s.len() - 1;
    lemma_outranks(s[n], s[n], s[n]);
    if head.len() == 0 {
        assert(is_best(s, 0));
    } else {
        lemma_best_exists(head);
        let k = choose|k: int| is_best(head, k);
        assert(head[k] == s[k]);
        assert forall|j: int| 0 <= j < n implies !outranks(#[trigger] s[j], s[k]) by {
            assert(head[j] == s[j]);
        }
        assert forall|j: int| k < j < n implies outranks(s[k], #[trigger] s[j]) by {
            assert(head[j] == s[j]);
        }
        if outranks(s[k], s[n]) {
            lemma_outranks(s[k], s[n], s[n]);
            assert(is_best(s, k));
        } else {
            assert forall|j: int| 0 <= j < s.len() implies !outranks(#[trigger] s[j], s[n]) by {
                if j < n {
                    lemma_outranks(s[j], s[k], s[n]);
                }
            }
            assert(is_best(s, n));
        }
    }
}

/// The candidate that is chosen is one of them, and goes before all of them: first
/// of all it is blocked for as long as any.
pub proof fn law_longest_blocked_candidate_is_chosen(s: Seq<Candidate>, d: Candidate)
    ensures
        s.len() == 0 ==> best_candidate(s) is None,
        s.contains(d) ==> (best_candidate(s) matches Some(c) && s.contains(c) && d.recovery_ms
            <= c.recovery_ms && goes_first(c, d)),
{
    if s.len() > 0 {
        lemma_best_exists(s);
        let k = choose|k: int| is_best(s, k);
        assert(is_best(s, k));
        assert(s.contains(s[k]));
        if s.contains(d) {
            let j = choose|j: int| 0 <= j < s.len() && s[j] == d;
            assert(!outranks(s[j], s[k]));
            law_order_total(s[j].account_id@, s[k].account_id@);
        }
    }
}

// ---------------------------------------------------------------------------
// The ledger and the outage
// ---------------------------------------------------------------------------

/// The stored redemption of an account is the first row with its id.
pub proof fn law_ledger_row_is_the_first_of_the_account(ledger: Seq<LedgerRow>, id: Seq<char>)
    ensures
        match row_of(ledger, id) {
            Some(row) => exists|i: int|
                0 <= i < ledger.len() && #[trigger] ledger[i] == row && row.account_id@ == id
                    && forall|j: int| 0 <= j < i ==> (#[trigger] ledger[j]).account_id@ != id,
            None => forall|j: int| 0 <= j < ledger.len() ==> (#[trigger] ledger[j]).account_id@ != id,
        },
    decreases ledger.len(),
{
    if ledger.len() > 0 && ledger[0].account_id@ != id {
        let rest = ledger.skip(1);
        law_ledger_row_is_the_first_of_the_account(rest, id);
        match row_of(rest, id) {
            Some(row) => {
                let i = choose|i: int|
                    0 <= i < rest.len() && #[trigger] rest[i] == row && row.account_id@ == id
                        && forall|j: int| 0 <= j < i ==> (#[trigger] rest[j]).account_id@ != id;
                assert(ledger[i + 1] == row);
                assert forall|j: int| 0 <= j < i + 1 implies (#[trigger] ledger[j]).account_id@
                    != id by {
                    if j > 0 {
                        assert(rest[j - 1] == ledger[j]);
                    }
                }
            },
            None => {
                assert forall|j: int| 0 <= j < ledger.len() implies (
                #[trigger] ledger[j]).account_id@ != id by {
                    if j > 0 {
                        assert(rest[j - 1] == ledger[j]);
                    }
                }
            },
        }
    } else if ledger.len() > 0 {
        assert(ledger[0] == row_of(ledger, id)->0);
    }
}

/// The pool knows a Codex account of this status under the id.
pub open spec fn codex_is(v: PoolView, id: Seq<char>, status: AccountStatus) -> bool {
    v.accounts.contains_key(id) && v.accounts[id].account.backend == BackendId::Codex
        && v.accounts[id].account.status == status
}

/// The account has a stored redemption whose outcome is not known.
pub open spec fn is_open(ledger: Seq<LedgerRow>, id: Seq<char>) -> bool {
    row_of(ledger, id) matches Some(row) && row.state@ == "pending"@
}

/// There is an outage exactly if a Codex account cools and none is healthy. Then
/// each that cools is considered; but where some of them have an open
/// redemption, only those.
pub proof fn law_outage_is_without_a_healthy_codex_account(
    v: PoolView,
    ledger: Seq<LedgerRow>,
    id: Seq<char>,
)
    ensures
        outage(v) <==> (exists|x: Seq<char>| #[trigger] codex_is(v, x, AccountStatus::Cooling)) && (
        forall|x: Seq<char>| !#[trigger] codex_is(v, x, AccountStatus::Healthy)),
        (exists|x: Seq<char>| #[trigger]
            codex_is(v, x, AccountStatus::Cooling) && is_open(ledger, x)) ==> (considered(
            v,
            ledger,
            id,
        ) <==> codex_is(v, id, AccountStatus::Cooling) && is_open(ledger, id)),
        !(exists|x: Seq<char>| #[trigger]
            codex_is(v, x, AccountStatus::Cooling) && is_open(ledger, x)) ==> (considered(
            v,
            ledger,
            id,
        ) <==> codex_is(v, id, AccountStatus::Cooling)),
{
    assert forall|x: Seq<char>| #[trigger]
        codex_is(v, x, AccountStatus::Cooling) <==> crate::resets::codex_cooling(v, x) by {}
    assert forall|x: Seq<char>| #[trigger]
        codex_is(v, x, AccountStatus::Healthy) <==> crate::resets::codex_healthy(v, x) by {}
    if crate::resets::codex_serves(v) {
        let x = choose|x: Seq<char>| crate::resets::codex_healthy(v, x);
        assert(codex_is(v, x, AccountStatus::Healthy));
    }
    if exists|x: Seq<char>| crate::resets::codex_cooling(v, x) {
        let x = choose|x: Seq<char>| crate::resets::codex_cooling(v, x);
        assert(codex_is(v, x, AccountStatus::Cooling));
    }
    if exists|x: Seq<char>| #[trigger] codex_is(v, x, AccountStatus::Cooling) {
        let x = choose|x: Seq<char>| #[trigger] codex_is(v, x, AccountStatus::Cooling);
        assert(crate::resets::codex_cooling(v, x));
    }
    if exists|x: Seq<char>| #[trigger] codex_is(v, x, AccountStatus::Healthy) {
        let x = choose|x: Seq<char>| #[trigger] codex_is(v, x, AccountStatus::Healthy);
        assert(crate::resets::codex_healthy(v, x));
    }
    if crate::resets::some_pending(v, ledger) {
        let x = choose|x: Seq<char>| #[trigger]
            crate::resets::codex_cooling(v, x) && crate::resets::awaits(ledger, x);
        assert(codex_is(v, x, AccountStatus::Cooling) && is_open(ledger, x));
    }
    if exists|x: Seq<char>| #[trigger]
        codex_is(v, x, AccountStatus::Cooling) && is_open(ledger, x) {
        let x = choose|x: Seq<char>| #[trigger]
            codex_is(v, x, AccountStatus::Cooling) && is_open(ledger, x);
        assert(crate::resets::codex_cooling(v, x) && crate::resets::awaits(ledger, x));
    }
}

/// The accounts of a search are those that are considered, each once and as the
/// pool has it.
pub proof fn law_search_lists_each_considered_account(
    accounts: Seq<Account>,
    v: PoolView,
    ledger: Seq<LedgerRow>,
    id: Seq<char>,
    i: int,
    j: int,
)
    requires
        lists_considered(accounts, v, ledger),
    ensures
        considered(v, ledger, id) ==> exists|k: int|
            0 <= k < accounts.len() && (#[trigger] accounts[k]).id@ == id,
        0 <= i < accounts.len() ==> considered(v, ledger, accounts[i].id@) && accounts[i]
            == v.accounts[accounts[i].id@].account,
        0 <= i < j < accounts.len() ==> accounts[i].id@ != accounts[j].id@,
{
    if considered(v, ledger, id) {
        assert(crate::resets::has_id(accounts, id));
        let k = choose|k: int| 0 <= k < accounts.len() && accounts[k].id@ == id;
        assert(accounts[k].id@ == id);
    }
}

/// Usage that blocks an account never shortens its cooling, and does not touch one
/// that is rejected or disabled.
pub proof fn law_blocked_account_cools_to_the_later_time(current: i64, recovery: i64)
    ensures
        cooling_deadline(AccountStatus::Healthy, current, recovery) == Some(recovery),
        recovery > current ==> cooling_deadline(AccountStatus::Cooling, current, recovery) == Some(
            recovery,
        ),
        recovery <= current ==> cooling_deadline(AccountStatus::Cooling, current, recovery) is None,
        cooling_deadline(AccountStatus::AuthError, current, recovery) is None,
        cooling_deadline(AccountStatus::Disabled, current, recovery) is None,
{
}

/// A status is changed if the account has the expected one, and only then.
pub proof fn law_status_changes_only_as_expected(
    v: PoolView,
    id: Seq<char>,
    expected: AccountStatus,
    next: AccountStatus,
    reset_at: i64,
    other: Seq<char>,
)
    ensures
        ({
            let w = status_if(v, id, expected, next, reset_at);
            let met = v.accounts.contains_key(id) && v.accounts[id].account.status == expected;
            &&& has_status(v, id, expected) == met
            &&& met ==> w.accounts[id].account.status == next && w.accounts[id].account.reset_at
                == reset_at && w.accounts[id].inflight == v.accounts[id].inflight
            &&& !met ==> w == v
            &&& other != id && v.accounts.contains_key(other) ==> w.accounts[other]
                == v.accounts[other]
            &&& w.bindings == v.bindings
        }),
{
}

/// A search is begun at most every thirty seconds.
pub proof fn law_searches_are_half_a_minute_apart()
    ensures
        CHECK_INTERVAL_MS == 30_000,
{
}

} // verus!
