//! The pool: account health, in-flight counts, sticky sessions and selection.
use crate::clock::minus;
use crate::models::{Account, AccountStatus, BackendId, Binding, ModelInfo, Outcome};
use crate::sticky::{
    cache_entries, cache_get, cache_new, cache_pop, cache_put, capacity, entries, entry_views,
    lookup, put_in, touched, without_key, Entry,
};
use crate::text::{
    below, dec_i64, holds, is_below, join2, law_order_total, law_order_transitive, opt_str_view,
    same, views,
};
use lru::LruCache;
use vstd::prelude::*;

verus! {

/// How long a sticky session stays bound: one day.
pub const BINDING_TTL_MS: i64 = 86_400_000;

/// The most sticky sessions that the pool remembers.
pub const DEFAULT_BINDING_CAP: usize = 10_000;

/// How a selection came about.
#[derive(Clone, Copy, Debug, PartialEq, Eq, Structural)]
pub enum Decision {
    StickyHit,
    StickyRebind,
    NewBinding,
    Unsticky,
}

/// The account that serves a request.
#[derive(Debug)]
pub struct Selection {
    pub account_id: String,
    pub backend: BackendId,
    pub decision: Decision,
}

impl Clone for Selection {
    fn clone(&self) -> (r: Self)
        ensures
            r == *self,
    {
        Selection {
            account_id: self.account_id.clone(),
            backend: self.backend,
            decision: self.decision,
        }
    }
}

pub struct SelectionView {
    pub account_id: Seq<char>,
    pub backend: BackendId,
    pub decision: Decision,
}

impl View for Selection {
    type V = SelectionView;

    open spec fn view(&self) -> SelectionView {
        SelectionView {
            account_id: self.account_id@,
            backend: self.backend,
            decision: self.decision,
        }
    }
}

/// Why no account serves a request.
#[derive(Clone, Copy, Debug, PartialEq, Eq, Structural)]
pub enum SelectError {
    Saturated { until_ms: i64 },
    NoAccounts,
}

impl SelectError {
    /// The error in words.
    pub fn message(&self) -> (r: String)
        ensures
            r@ == (match *self {
                SelectError::Saturated { until_ms } =>
                    "all eligible accounts are cooling until "@ + crate::text::dec(until_ms as int),
                SelectError::NoAccounts => "no accounts configured for this model"@,
            }),
    {
        match self {
            SelectError::Saturated { until_ms } => join2(
                "all eligible accounts are cooling until ",
                dec_i64(*until_ms).as_str(),
            ),
            SelectError::NoAccounts => "no accounts configured for this model".to_owned(),
        }
    }
}

/// The view of what a selection gives.
pub open spec fn choice_view(r: Result<Selection, SelectError>) -> Result<
    SelectionView,
    SelectError,
> {
    match r {
        Ok(s) => Ok(s@),
        Err(e) => Err(e),
    }
}

/// An account and its requests in flight.
#[derive(Debug)]
pub struct AccountState {
    pub account: Account,
    pub inflight: u32,
}

// ---------------------------------------------------------------------------
// The model of the pool
// ---------------------------------------------------------------------------

/// The state of a pool.
#[verifier::ext_equal]
pub struct PoolView {
    pub accounts: Map<Seq<char>, AccountState>,
    /// The sticky sessions, the most recently used one first.
    pub bindings: Seq<Entry>,
    pub cap: nat,
    pub codex_models: Set<Seq<char>>,
    pub copilot_models: Set<Seq<char>>,
}

/// The entries that satisfy `keep`, in order.
pub open spec fn kept(s: Seq<Entry>, keep: spec_fn(Entry) -> bool) -> Seq<Entry>
    decreases s.len(),
{
    if s.len() == 0 {
        s
    } else if keep(s.last()) {
        kept(s.drop_last(), keep).push(s.last())
    } else {
        kept(s.drop_last(), keep)
    }
}

/// The binding is at most [`BINDING_TTL_MS`] old.
pub open spec fn is_fresh(e: Entry, now: int) -> bool {
    now - e.2 <= BINDING_TTL_MS
}

/// The bindings that are fresh at `now`.
pub open spec fn fresh_at(now: int) -> spec_fn(Entry) -> bool {
    |e: Entry| is_fresh(e, now)
}

/// The bindings that are not to the account `id`.
pub open spec fn not_to(id: Seq<char>) -> spec_fn(Entry) -> bool {
    |e: Entry| e.1 != id
}

/// The account with its cooling over, if that has passed at `now`.
pub open spec fn recovered(a: Account, now: int) -> Account {
    if lapsed(a, now) {
        Account { status: AccountStatus::Healthy, reset_at: 0, ..a }
    } else {
        a
    }
}

/// The account is cooling and that is over at `now`.
pub open spec fn lapsed(a: Account, now: int) -> bool {
    a.status == AccountStatus::Cooling && a.reset_at <= now
}

/// The ids of the listed accounts whose cooling is over, in order.
pub open spec fn lapsed_ids(listed: Seq<Account>, now: int) -> Seq<Seq<char>>
    decreases listed.len(),
{
    if listed.len() == 0 {
        Seq::empty()
    } else if lapsed(listed.last(), now) {
        lapsed_ids(listed.drop_last(), now).push(listed.last().id@)
    } else {
        lapsed_ids(listed.drop_last(), now)
    }
}

/// The status and reset time that an outcome sets.
pub open spec fn outcome_status(outcome: Outcome) -> Option<(AccountStatus, i64)> {
    match outcome {
        Outcome::QuotaExhausted { until_ms } => Some((AccountStatus::Cooling, until_ms)),
        Outcome::AuthFailed => Some((AccountStatus::AuthError, 0i64)),
        Outcome::Transient | Outcome::Success => None,
    }
}

/// Accounts put in one after the other, none in flight.
pub open spec fn inserted_all(s: Seq<Account>) -> Map<Seq<char>, AccountState>
    decreases s.len(),
{
    if s.len() == 0 {
        Map::empty()
    } else {
        inserted_all(s.drop_last()).insert(
            s.last().id@,
            AccountState { account: s.last(), inflight: 0 },
        )
    }
}

/// Sticky sessions put in one after the other.
pub open spec fn bound_all(s: Seq<Binding>) -> Seq<Entry>
    decreases s.len(),
{
    if s.len() == 0 {
        Seq::empty()
    } else {
        put_in(
            bound_all(s.drop_last()),
            DEFAULT_BINDING_CAP as nat,
            (s.last().cache_key@, s.last().account_id@, s.last().bound_at as int),
        )
    }
}

pub struct BindingView {
    pub cache_key: Seq<char>,
    pub account_id: Seq<char>,
    pub backend: BackendId,
    pub bound_at: int,
}

pub open spec fn binding_view(b: Binding) -> BindingView {
    BindingView {
        cache_key: b.cache_key@,
        account_id: b.account_id@,
        backend: b.backend,
        bound_at: b.bound_at as int,
    }
}

pub open spec fn binding_views(s: Seq<Binding>) -> Seq<BindingView> {
    s.map_values(|b: Binding| binding_view(b))
}

/// The entries whose account is known, with its backend.
pub open spec fn listed(accounts: Map<Seq<char>, AccountState>, s: Seq<Entry>) -> Seq<BindingView>
    decreases s.len(),
{
    if s.len() == 0 {
        Seq::empty()
    } else {
        let e = s.last();
        let head = listed(accounts, s.drop_last());
        if accounts.contains_key(e.1) {
            head.push(
                BindingView {
                    cache_key: e.0,
                    account_id: e.1,
                    backend: accounts[e.1].account.backend,
                    bound_at: e.2,
                },
            )
        } else {
            head
        }
    }
}

/// No two entries have one key.
pub open spec fn distinct_keys(s: Seq<Entry>) -> bool {
    forall|i: int, j: int| 0 <= i < j < s.len() ==> (#[trigger] s[i]).0 != (#[trigger] s[j]).0
}

impl PoolView {
    pub open spec fn models(self, b: BackendId) -> Set<Seq<char>> {
        match b {
            BackendId::Codex => self.codex_models,
            BackendId::Copilot => self.copilot_models,
        }
    }

    pub open spec fn serves(self, b: BackendId, model: Seq<char>) -> bool {
        self.models(b).contains(model)
    }

    /// The backend may serve the model: its catalog lists it, or no catalog
    /// does and the backend takes unknown models.
    pub open spec fn eligible(self, b: BackendId, model: Seq<char>) -> bool {
        ||| self.serves(b, model)
        ||| b == BackendId::Codex && !self.serves(BackendId::Codex, model) && !self.serves(
            BackendId::Copilot,
            model,
        )
    }

    /// The account is healthy and may serve the model, on the backend `only` if
    /// one is given.
    pub open spec fn candidate(
        self,
        model: Seq<char>,
        only: Option<BackendId>,
        id: Seq<char>,
    ) -> bool {
        &&& self.accounts.contains_key(id)
        &&& self.accounts[id].account.is_healthy()
        &&& self.eligible(self.accounts[id].account.backend, model)
        &&& only matches Some(b) ==> self.accounts[id].account.backend == b
    }

    /// Fewer requests in flight, or as many and the smaller id.
    pub open spec fn ahead(self, a: Seq<char>, b: Seq<char>) -> bool {
        ||| self.accounts[a].inflight < self.accounts[b].inflight
        ||| self.accounts[a].inflight == self.accounts[b].inflight && below(a, b)
    }

    pub open spec fn is_pick(
        self,
        model: Seq<char>,
        only: Option<BackendId>,
        id: Seq<char>,
    ) -> bool {
        &&& self.candidate(model, only, id)
        &&& forall|other: Seq<char>| #[trigger]
            self.candidate(model, only, other) && other != id ==> self.ahead(id, other)
    }

    /// The candidate with the fewest requests in flight; of several, the one
    /// with the smallest id.
    pub open spec fn pick(self, model: Seq<char>, only: Option<BackendId>) -> Option<Seq<char>> {
        if exists|id: Seq<char>| self.is_pick(model, only, id) {
            Some(choose|id: Seq<char>| self.is_pick(model, only, id))
        } else {
            None
        }
    }

    /// The account is cooling and may serve the model.
    pub open spec fn cooling(self, model: Seq<char>, id: Seq<char>) -> bool {
        &&& self.accounts.contains_key(id)
        &&& self.accounts[id].account.status == AccountStatus::Cooling
        &&& self.eligible(self.accounts[id].account.backend, model)
    }

    pub open spec fn is_earliest(self, model: Seq<char>, at: i64) -> bool {
        &&& exists|id: Seq<char>| #[trigger]
            self.cooling(model, id) && self.accounts[id].account.reset_at == at
        &&& forall|id: Seq<char>| #[trigger]
            self.cooling(model, id) ==> at <= self.accounts[id].account.reset_at
    }

    /// The earliest reset of the accounts that are cooling and may serve the
    /// model.
    pub open spec fn earliest_reset(self, model: Seq<char>) -> Option<i64> {
        if exists|at: i64| self.is_earliest(model, at) {
            Some(choose|at: i64| self.is_earliest(model, at))
        } else {
            None
        }
    }

    /// The pool once the time `now` has been taken into account: accounts whose
    /// cooling is over are healthy, sessions that are too old are gone.
    pub open spec fn swept(self, now: int) -> PoolView {
        PoolView {
            accounts: self.accounts.map_values(
                |s: AccountState| AccountState { account: recovered(s.account, now), ..s },
            ),
            bindings: kept(self.bindings, fresh_at(now)),
            ..self
        }
    }

    pub open spec fn bound(self, key: Seq<char>, id: Seq<char>, now: int) -> PoolView {
        PoolView { bindings: put_in(self.bindings, self.cap, (key, id, now)), ..self }
    }

    /// The choice when no binding decides: the best candidate, which a sticky
    /// request is bound to; with no candidate, the earliest reset.
    pub open spec fn unbound_choice(
        self,
        now: int,
        sticky: Option<Seq<char>>,
        model: Seq<char>,
    ) -> (Result<SelectionView, SelectError>, PoolView) {
        match self.pick(model, None) {
            Some(id) => {
                let backend = self.accounts[id].account.backend;
                match sticky {
                    Some(key) => (
                        Ok(
                            SelectionView {
                                account_id: id,
                                backend,
                                decision: Decision::NewBinding,
                            },
                        ),
                        self.bound(key, id, now),
                    ),
                    None => (
                        Ok(
                            SelectionView { account_id: id, backend, decision: Decision::Unsticky },
                        ),
                        self,
                    ),
                }
            },
            None => (
                match self.earliest_reset(model) {
                    Some(until_ms) => Err(SelectError::Saturated { until_ms }),
                    None => Err(SelectError::NoAccounts),
                },
                self,
            ),
        }
    }

    /// The choice for a sticky request whose session is bound to an account:
    /// that account if it is healthy and serves the model; else another one of
    /// its backend; else as if it were not bound.
    pub open spec fn bound_choice(
        self,
        now: int,
        key: Seq<char>,
        account: Seq<char>,
        model: Seq<char>,
    ) -> (Result<SelectionView, SelectError>, PoolView) {
        if self.candidate(model, None, account) {
            (
                Ok(
                    SelectionView {
                        account_id: account,
                        backend: self.accounts[account].account.backend,
                        decision: Decision::StickyHit,
                    },
                ),
                self,
            )
        } else {
            let preferred = if self.accounts.contains_key(account) {
                Some(self.accounts[account].account.backend)
            } else {
                None
            };
            match self.pick(model, preferred) {
                Some(id) => (
                    Ok(
                        SelectionView {
                            account_id: id,
                            backend: self.accounts[id].account.backend,
                            decision: Decision::StickyRebind,
                        },
                    ),
                    self.bound(key, id, now),
                ),
                None => self.unbound_choice(now, Some(key), model),
            }
        }
    }

    /// What a selection gives, and the pool after it.
    pub open spec fn selected(
        self,
        now: int,
        sticky: Option<Seq<char>>,
        model: Seq<char>,
    ) -> (Result<SelectionView, SelectError>, PoolView) {
        let v = self.swept(now);
        match sticky {
            Some(key) => match lookup(v.bindings, key) {
                Some(e) => (PoolView { bindings: touched(v.bindings, key), ..v }).bound_choice(
                    now,
                    key,
                    e.1,
                    model,
                ),
                None => v.unbound_choice(now, sticky, model),
            },
            None => v.unbound_choice(now, sticky, model),
        }
    }

    /// The pool with the in-flight counter of one account changed, kept within
    /// its range.
    pub open spec fn with_inflight(self, id: Seq<char>, change: spec_fn(u32) -> int) -> PoolView {
        if self.accounts.contains_key(id) {
            let s = self.accounts[id];
            let n = change(s.inflight);
            let inflight = if n < 0 {
                0u32
            } else if n > u32::MAX {
                u32::MAX
            } else {
                n as u32
            };
            PoolView {
                accounts: self.accounts.insert(id, AccountState { inflight, ..s }),
                ..self
            }
        } else {
            self
        }
    }

    /// The pool with the status of one account set.
    pub open spec fn with_status(
        self,
        id: Seq<char>,
        status: AccountStatus,
        reset_at: i64,
    ) -> PoolView {
        if self.accounts.contains_key(id) {
            let s = self.accounts[id];
            PoolView {
                accounts: self.accounts.insert(
                    id,
                    AccountState { account: Account { status, reset_at, ..s.account }, ..s },
                ),
                ..self
            }
        } else {
            self
        }
    }

    /// The account is cooling and that is over at `now`.
    pub open spec fn readmitted(self, id: Seq<char>, now: int) -> bool {
        self.accounts.contains_key(id) && lapsed(self.accounts[id].account, now)
    }

    /// The pool with an account as it is now stored.
    pub open spec fn synced(self, account: Account) -> PoolView {
        let inflight = if self.accounts.contains_key(account.id@) {
            self.accounts[account.id@].inflight
        } else {
            0u32
        };
        PoolView {
            accounts: self.accounts.insert(account.id@, AccountState { account, inflight }),
            ..self
        }
    }

    pub open spec fn synced_all(self, listed: Seq<Account>, now: int) -> PoolView
        decreases listed.len(),
    {
        if listed.len() == 0 {
            self
        } else {
            self.synced_all(listed.drop_last(), now).synced(recovered(listed.last(), now))
        }
    }

    /// The pool without an account and without its sticky sessions.
    pub open spec fn without_account(self, id: Seq<char>) -> PoolView {
        PoolView {
            accounts: self.accounts.remove(id),
            bindings: kept(self.bindings, not_to(id)),
            ..self
        }
    }

    /// The pool without the sticky sessions of listed accounts that it lacks.
    pub open spec fn without_unknown(self, listed: Seq<Account>) -> PoolView
        decreases listed.len(),
    {
        if listed.len() == 0 {
            self
        } else {
            let v = self.without_unknown(listed.drop_last());
            if self.accounts.contains_key(listed.last().id@) {
                v
            } else {
                PoolView { bindings: kept(v.bindings, not_to(listed.last().id@)), ..v }
            }
        }
    }

    /// The sticky sessions bound to accounts of the pool.
    pub open spec fn listed_bindings(self) -> Seq<BindingView> {
        listed(self.accounts, self.bindings)
    }

    /// What every pool keeps to.
    pub open spec fn wf(self) -> bool {
        &&& self.accounts.dom().finite()
        &&& forall|id: Seq<char>| #[trigger]
            self.accounts.contains_key(id) ==> self.accounts[id].account.id@ == id
        &&& distinct_keys(self.bindings)
        &&& self.bindings.len() <= self.cap
        &&& self.cap == DEFAULT_BINDING_CAP
    }
}

// ---------------------------------------------------------------------------
// Facts about entries
// ---------------------------------------------------------------------------

pub proof fn lemma_kept(s: Seq<Entry>, keep: spec_fn(Entry) -> bool)
    ensures
        kept(s, keep).len() <= s.len(),
        forall|e: Entry| #[trigger] kept(s, keep).contains(e) ==> s.contains(e) && keep(e),
        forall|e: Entry| #[trigger] s.contains(e) && keep(e) ==> kept(s, keep).contains(e),
        distinct_keys(s) ==> distinct_keys(kept(s, keep)),
    decreases s.len(),
{
    if s.len() > 0 {
        let t = s.drop_last();
        lemma_kept(t, keep);
        let k = kept(s, keep);
        assert forall|e: Entry| #[trigger] k.contains(e) implies s.contains(e) && keep(e) by {
            let i = choose|i: int| 0 <= i < k.len() && k[i] == e;
            if keep(s.last()) && i == k.len() - 1 {
                assert(s[s.len() - 1] == e);
            } else {
                assert(kept(t, keep)[i] == e);
                assert(kept(t, keep).contains(e));
                let j = choose|j: int| 0 <= j < t.len() && t[j] == e;
                assert(s[j] == e);
            }
        }
        assert forall|e: Entry| #[trigger] s.contains(e) && keep(e) implies k.contains(e) by {
            let i = choose|i: int| 0 <= i < s.len() && s[i] == e;
            if i == s.len() - 1 {
                assert(k[k.len() - 1] == e);
            } else {
                assert(t[i] == e);
                assert(t.contains(e));
                assert(kept(t, keep).contains(e));
                let j = choose|j: int| 0 <= j < kept(t, keep).len() && kept(t, keep)[j] == e;
                assert(k[j] == e);
            }
        }
        if distinct_keys(s) {
            assert forall|i: int, j: int| 0 <= i < j < t.len() implies (#[trigger] t[i]).0 != (
            #[trigger] t[j]).0 by {
                assert(s[i].0 != s[j].0);
            }
            assert forall|i: int, j: int| 0 <= i < j < k.len() implies (#[trigger] k[i]).0 != (
            #[trigger] k[j]).0 by {
                let kt = kept(t, keep);
                if keep(s.last()) && j == k.len() - 1 {
                    assert(kt[i] == k[i]);
                    assert(kt.contains(k[i]));
                    assert(keep(k[i]));
                    let m = choose|m: int| 0 <= m < t.len() && t[m] == k[i];
                    assert(s[m].0 != s[s.len() - 1].0);
                } else {
                    assert(kt[i].0 != kt[j].0);
                }
            }
        }
    }
}

pub proof fn lemma_lookup(s: Seq<Entry>, key: Seq<char>)
    ensures
        lookup(s, key) matches Some(e) ==> s.contains(e) && e.0 == key,
        lookup(s, key) is None ==> forall|i: int| 0 <= i < s.len() ==> (#[trigger] s[i]).0 != key,
        distinct_keys(s) ==> forall|e: Entry| #[trigger]
            s.contains(e) && e.0 == key ==> lookup(s, key) == Some(e),
    decreases s.len(),
{
    if s.len() > 0 {
        let t = s.drop_last();
        lemma_lookup(t, key);
        if s.last().0 == key {
            assert(s[s.len() - 1] == s.last());
        } else {
            if let Some(e) = lookup(t, key) {
                let i = choose|i: int| 0 <= i < t.len() && t[i] == e;
                assert(s[i] == e);
            } else {
                assert forall|i: int| 0 <= i < s.len() implies (#[trigger] s[i]).0 != key by {
                    if i < t.len() {
                        assert(t[i].0 != key);
                    }
                }
            }
        }
        if distinct_keys(s) {
            assert forall|i: int, j: int| 0 <= i < j < t.len() implies (#[trigger] t[i]).0 != (
            #[trigger] t[j]).0 by {
                assert(s[i].0 != s[j].0);
            }
            assert forall|e: Entry| #[trigger] s.contains(e) && e.0 == key implies lookup(s, key)
                == Some(e) by {
                let i = choose|i: int| 0 <= i < s.len() && s[i] == e;
                if i < s.len() - 1 {
                    assert(s[i].0 != s[s.len() - 1].0);
                    assert(t[i] == e);
                    assert(t.contains(e));
                }
            }
        }
    }
}

/// The entries that are not under `key`.
pub open spec fn not_under(key: Seq<char>) -> spec_fn(Entry) -> bool {
    |e: Entry| e.0 != key
}

pub proof fn lemma_without_key(s: Seq<Entry>, key: Seq<char>)
    ensures
        without_key(s, key) == kept(s, not_under(key)),
    decreases s.len(),
{
    if s.len() > 0 {
        lemma_without_key(s.drop_last(), key);
    }
}

/// Using an entry, putting one in and taking one out keep the keys distinct and
/// the number of entries within the capacity.
pub proof fn lemma_cache_stays_valid(s: Seq<Entry>, cap: nat, e: Entry)
    requires
        distinct_keys(s),
        s.len() <= cap,
        cap > 0,
    ensures
        distinct_keys(put_in(s, cap, e)),
        put_in(s, cap, e).len() <= cap,
        lookup(put_in(s, cap, e), e.0) == Some(e),
        distinct_keys(touched(s, e.0)),
        touched(s, e.0).len() <= cap,
        lookup(touched(s, e.0), e.0) == lookup(s, e.0),
        distinct_keys(without_key(s, e.0)),
        without_key(s, e.0).len() <= cap,
{
    let keep = not_under(e.0);
    lemma_without_key(s, e.0);
    lemma_kept(s, keep);
    let w = without_key(s, e.0);
    lemma_lookup(s, e.0);
    assert forall|i: int| 0 <= i < w.len() implies (#[trigger] w[i]).0 != e.0 by {
        assert(w.contains(w[i]));
        assert(keep(w[i]));
    }
    if let Some(x) = lookup(s, e.0) {
        lemma_kept_drops_one(s, keep, x);
        let p = seq![e] + w;
        assert forall|i: int, j: int| 0 <= i < j < p.len() implies (#[trigger] p[i]).0 != (
        #[trigger] p[j]).0 by {
            assert(p[j] == w[j - 1]);
            if i > 0 {
                assert(p[i] == w[i - 1]);
            }
        }
        let t = seq![x] + w;
        assert forall|i: int, j: int| 0 <= i < j < t.len() implies (#[trigger] t[i]).0 != (
        #[trigger] t[j]).0 by {
            assert(t[j] == w[j - 1]);
            if i > 0 {
                assert(t[i] == w[i - 1]);
            }
        }
        lemma_lookup(p, e.0);
        assert(p[0] == e);
        assert(p.contains(e));
        lemma_lookup(t, e.0);
        assert(t[0] == x);
        assert(t.contains(x));
    } else {
        let rest = if s.len() == cap {
            s.drop_last()
        } else {
            s
        };
        let p = seq![e] + rest;
        assert forall|i: int, j: int| 0 <= i < j < p.len() implies (#[trigger] p[i]).0 != (
        #[trigger] p[j]).0 by {
            assert(p[j] == s[j - 1]);
            if i > 0 {
                assert(p[i] == s[i - 1]);
            }
        }
        lemma_lookup(p, e.0);
        assert(p[0] == e);
        assert(p.contains(e));
    }
}

proof fn lemma_kept_drops_one(s: Seq<Entry>, keep: spec_fn(Entry) -> bool, x: Entry)
    requires
        s.contains(x),
        !keep(x),
    ensures
        kept(s, keep).len() < s.len(),
    decreases s.len(),
{
    let t = s.drop_last();
    lemma_kept(t, keep);
    if keep(s.last()) {
        let i = choose|i: int| 0 <= i < s.len() && s[i] == x;
        assert(t[i] == x);
        lemma_kept_drops_one(t, keep, x);
    }
}

/// Taking out the first entry that is not kept.
proof fn lemma_take_out(a: Seq<Entry>, e: Entry, b: Seq<Entry>)
    requires
        distinct_keys(a + seq![e] + b),
    ensures
        without_key(a + seq![e] + b, e.0) == a + b,
    decreases b.len(),
{
    let s = a + seq![e] + b;
    assert(s[a.len() as int] == e);
    if b.len() > 0 {
        let b0 = b.drop_last();
        assert(s.drop_last() =~= a + seq![e] + b0);
        assert forall|i: int, j: int| 0 <= i < j < s.len() - 1 implies (#[trigger] (a + seq![e]
            + b0)[i]).0 != (#[trigger] (a + seq![e] + b0)[j]).0 by {
            assert(s[i].0 != s[j].0);
        }
        lemma_take_out(a, e, b0);
        assert(s[a.len() as int].0 != s[s.len() - 1].0);
        assert((a + b0).push(b.last()) =~= a + b);
    } else {
        assert(s.drop_last() =~= a);
        assert(a + b =~= a);
        assert forall|i: int| 0 <= i < a.len() implies (#[trigger] a[i]).0 != e.0 by {
            assert(s[i].0 != s[a.len() as int].0);
        }
        lemma_absent(a, e.0);
    }
}

proof fn lemma_absent(a: Seq<Entry>, key: Seq<char>)
    requires
        forall|i: int| 0 <= i < a.len() ==> (#[trigger] a[i]).0 != key,
    ensures
        without_key(a, key) == a,
    decreases a.len(),
{
    if a.len() > 0 {
        let t = a.drop_last();
        assert(a[a.len() - 1].0 != key);
        assert forall|i: int| 0 <= i < t.len() implies (#[trigger] t[i]).0 != key by {
            assert(a[i].0 != key);
        }
        lemma_absent(t, key);
        assert(t.push(a.last()) =~= a);
    }
}

// ---------------------------------------------------------------------------
// Accounts as a map
// ---------------------------------------------------------------------------

pub open spec fn account_map(s: Seq<AccountState>) -> Map<Seq<char>, AccountState>
    decreases s.len(),
{
    if s.len() == 0 {
        Map::empty()
    } else {
        account_map(s.drop_last()).insert(s.last().account.id@, s.last())
    }
}

pub open spec fn unique_ids(s: Seq<AccountState>) -> bool {
    forall|i: int, j: int|
        0 <= i < j < s.len() ==> (#[trigger] s[i]).account.id@ != (#[trigger] s[j]).account.id@
}

pub proof fn lemma_account_map(s: Seq<AccountState>)
    requires
        unique_ids(s),
    ensures
        forall|i: int|
            0 <= i < s.len() ==> account_map(s).contains_key((#[trigger] s[i]).account.id@)
                && account_map(s)[s[i].account.id@] == s[i],
        forall|id: Seq<char>| #[trigger]
            account_map(s).contains_key(id) ==> exists|i: int|
                0 <= i < s.len() && s[i].account.id@ == id,
    decreases s.len(),
{
    if s.len() > 0 {
        let t = s.drop_last();
        assert forall|i: int, j: int| 0 <= i < j < t.len() implies (#[trigger] t[i]).account.id@
            != (#[trigger] t[j]).account.id@ by {
            assert(s[i].account.id@ != s[j].account.id@);
        }
        lemma_account_map(t);
        assert forall|i: int| 0 <= i < s.len() implies account_map(s).contains_key(
            (#[trigger] s[i]).account.id@,
        ) && account_map(s)[s[i].account.id@] == s[i] by {
            if i < t.len() {
                assert(t[i] == s[i]);
                assert(s[i].account.id@ != s[s.len() - 1].account.id@);
            }
        }
        assert forall|id: Seq<char>| #[trigger] account_map(s).contains_key(id) implies exists|
            i: int,
        |
            0 <= i < s.len() && s[i].account.id@ == id by {
            if id == s.last().account.id@ {
                assert(s[s.len() - 1].account.id@ == id);
            } else {
                assert(account_map(t).contains_key(id));
                let i = choose|i: int| 0 <= i < t.len() && t[i].account.id@ == id;
                assert(s[i].account.id@ == id);
            }
        }
    }
}

proof fn lemma_map_len(s: Seq<AccountState>)
    requires
        unique_ids(s),
    ensures
        account_map(s).dom().finite(),
        account_map(s).dom().len() == s.len(),
    decreases s.len(),
{
    if s.len() > 0 {
        let t = s.drop_last();
        assert forall|i: int, j: int| 0 <= i < j < t.len() implies (#[trigger] t[i]).account.id@
            != (#[trigger] t[j]).account.id@ by {
            assert(s[i].account.id@ != s[j].account.id@);
        }
        lemma_map_len(t);
        lemma_account_map(t);
        let id = s.last().account.id@;
        if account_map(t).contains_key(id) {
            let i = choose|i: int| 0 <= i < t.len() && t[i].account.id@ == id;
            assert(s[i].account.id@ != s[s.len() - 1].account.id@);
        }
        assert(account_map(s).dom() =~= account_map(t).dom().insert(id));
    }
}

proof fn lemma_map_update(s: Seq<AccountState>, i: int, x: AccountState)
    requires
        unique_ids(s),
        0 <= i < s.len(),
        x.account.id@ == s[i].account.id@,
    ensures
        unique_ids(s.update(i, x)),
        account_map(s.update(i, x)) == account_map(s).insert(x.account.id@, x),
{
    let u = s.update(i, x);
    assert forall|a: int, b: int| 0 <= a < b < u.len() implies (#[trigger] u[a]).account.id@ != (
    #[trigger] u[b]).account.id@ by {
        assert(s[a].account.id@ != s[b].account.id@);
    }
    lemma_account_map(s);
    lemma_account_map(u);
    let m = account_map(s).insert(x.account.id@, x);
    assert(account_map(u).dom() =~= m.dom()) by {
        assert forall|id: Seq<char>| account_map(u).contains_key(id) <==> m.contains_key(id) by {
            if account_map(u).contains_key(id) {
                let j = choose|j: int| 0 <= j < u.len() && u[j].account.id@ == id;
                assert(s[j].account.id@ == id);
            }
            if m.contains_key(id) {
                if id == x.account.id@ {
                    assert(u[i].account.id@ == id);
                } else {
                    let j = choose|j: int| 0 <= j < s.len() && s[j].account.id@ == id;
                    assert(u[j].account.id@ == id);
                }
            }
        }
    }
    assert forall|id: Seq<char>| account_map(u).contains_key(id) implies account_map(u)[id]
        == m[id] by {
        let j = choose|j: int| 0 <= j < u.len() && u[j].account.id@ == id;
        assert(account_map(u)[id] == u[j]);
        if j != i {
            assert(s[j] == u[j]);
            assert(account_map(s)[id] == s[j]);
        }
    }
    assert(account_map(u) =~= m);
}

proof fn lemma_map_remove(s: Seq<AccountState>, i: int)
    requires
        unique_ids(s),
        0 <= i < s.len(),
    ensures
        unique_ids(s.remove(i)),
        account_map(s.remove(i)) == account_map(s).remove(s[i].account.id@),
{
    let u = s.remove(i);
    assert forall|a: int, b: int| 0 <= a < b < u.len() implies (#[trigger] u[a]).account.id@ != (
    #[trigger] u[b]).account.id@ by {
        let a2 = if a < i {
            a
        } else {
            a + 1
        };
        let b2 = if b < i {
            b
        } else {
            b + 1
        };
        assert(s[a2].account.id@ != s[b2].account.id@);
    }
    lemma_account_map(s);
    lemma_account_map(u);
    let m = account_map(s).remove(s[i].account.id@);
    assert forall|id: Seq<char>| account_map(u).contains_key(id) <==> m.contains_key(id) by {
        if account_map(u).contains_key(id) {
            let j = choose|j: int| 0 <= j < u.len() && u[j].account.id@ == id;
            let j2 = if j < i {
                j
            } else {
                j + 1
            };
            assert(s[j2].account.id@ == id);
            if j2 < i {
                assert(s[j2].account.id@ != s[i].account.id@);
            } else {
                assert(s[i].account.id@ != s[j2].account.id@);
            }
        }
        if m.contains_key(id) {
            let j = choose|j: int| 0 <= j < s.len() && s[j].account.id@ == id;
            let j2 = if j < i {
                j
            } else {
                j - 1
            };
            assert(u[j2].account.id@ == id);
        }
    }
    assert forall|id: Seq<char>| account_map(u).contains_key(id) implies account_map(u)[id]
        == m[id] by {
        let j = choose|j: int| 0 <= j < u.len() && u[j].account.id@ == id;
        let j2 = if j < i {
            j
        } else {
            j + 1
        };
        assert(account_map(u)[id] == u[j]);
        assert(s[j2] == u[j]);
    }
    assert(account_map(u) =~= m);
}

proof fn lemma_map_push(s: Seq<AccountState>, x: AccountState)
    requires
        unique_ids(s),
        !account_map(s).contains_key(x.account.id@),
    ensures
        unique_ids(s.push(x)),
        account_map(s.push(x)) == account_map(s).insert(x.account.id@, x),
{
    lemma_account_map(s);
    let u = s.push(x);
    assert(u.drop_last() =~= s);
    assert forall|a: int, b: int| 0 <= a < b < u.len() implies (#[trigger] u[a]).account.id@ != (
    #[trigger] u[b]).account.id@ by {
        if b == s.len() {
            assert(account_map(s).contains_key(s[a].account.id@));
        } else {
            assert(s[a].account.id@ != s[b].account.id@);
        }
    }
}

proof fn lemma_map_each(
    s: Seq<AccountState>,
    u: Seq<AccountState>,
    f: spec_fn(AccountState) -> AccountState,
)
    requires
        unique_ids(s),
        s.len() == u.len(),
        forall|i: int| 0 <= i < s.len() ==> #[trigger] u[i] == f(s[i]),
        forall|i: int| 0 <= i < s.len() ==> (#[trigger] u[i]).account.id@ == s[i].account.id@,
    ensures
        unique_ids(u),
        account_map(u) == account_map(s).map_values(f),
{
    assert forall|a: int, b: int| 0 <= a < b < u.len() implies (#[trigger] u[a]).account.id@ != (
    #[trigger] u[b]).account.id@ by {
        assert(s[a].account.id@ != s[b].account.id@);
    }
    lemma_account_map(s);
    lemma_account_map(u);
    let m = account_map(s).map_values(f);
    assert forall|id: Seq<char>| account_map(u).contains_key(id) <==> m.contains_key(id) by {
        if account_map(u).contains_key(id) {
            let j = choose|j: int| 0 <= j < u.len() && u[j].account.id@ == id;
            assert(s[j].account.id@ == id);
        }
        if m.contains_key(id) {
            assert(account_map(s).contains_key(id));
            let j = choose|j: int| 0 <= j < s.len() && s[j].account.id@ == id;
            assert(u[j].account.id@ == id);
        }
    }
    assert forall|id: Seq<char>| account_map(u).contains_key(id) implies account_map(u)[id]
        == m[id] by {
        let j = choose|j: int| 0 <= j < u.len() && u[j].account.id@ == id;
        assert(account_map(u)[id] == u[j]);
        assert(account_map(s)[id] == s[j]);
    }
    assert(account_map(u) =~= m);
}

// ---------------------------------------------------------------------------
// The pool
// ---------------------------------------------------------------------------

pub struct PoolCore {
    accounts: Vec<AccountState>,
    bindings: LruCache<String, (String, i64)>,
    codex_models: Vec<String>,
    copilot_models: Vec<String>,
}

impl View for PoolCore {
    type V = PoolView;

    closed spec fn view(&self) -> PoolView {
        PoolView {
            accounts: account_map(self.accounts@),
            bindings: entries(self.bindings),
            cap: capacity(self.bindings),
            codex_models: views(self.codex_models@).to_set(),
            copilot_models: views(self.copilot_models@).to_set(),
        }
    }
}

impl PoolCore {
    /// The pool is valid: see [`PoolView::wf`].
    pub closed spec fn wf(&self) -> bool {
        &&& unique_ids(self.accounts@)
        &&& self@.wf()
    }

    /// What holds of every valid view holds of a valid pool.
    pub proof fn law_valid_pool_has_a_valid_view(&self)
        requires
            self.wf(),
        ensures
            self@.wf(),
    {
    }

    /// Where the account `id` stands.
    fn find(&self, id: &str) -> (r: Option<usize>)
        requires
            self.wf(),
        ensures
            match r {
                Some(i) => {
                    &&& i < self.accounts@.len()
                    &&& self.accounts@[i as int].account.id@ == id@
                    &&& self@.accounts.contains_key(id@)
                    &&& self@.accounts[id@] == self.accounts@[i as int]
                },
                None => !self@.accounts.contains_key(id@),
            },
    {
        proof {
            lemma_account_map(self.accounts@);
        }
        for i in 0..self.accounts.len()
            invariant
                forall|j: int|
                    0 <= j < self.accounts@.len() ==> self@.accounts.contains_key(
                        (#[trigger] self.accounts@[j]).account.id@,
                    ) && self@.accounts[self.accounts@[j].account.id@] == self.accounts@[j],
                forall|j: int| 0 <= j < i ==> (#[trigger] self.accounts@[j]).account.id@ != id@,
        {
            if same(self.accounts[i].account.id.as_str(), id) {
                return Some(i);
            }
        }
        None
    }

    /// A pool with the given accounts, none of them in flight, the given sticky
    /// sessions, and the given catalogs. Of two accounts with one id the later
    /// counts.
    pub fn new(
        accounts: Vec<Account>,
        bindings: Vec<Binding>,
        codex_models: &Vec<ModelInfo>,
        copilot_models: &Vec<ModelInfo>,
    ) -> (r: Self)
        ensures
            r.wf(),
            r@ == (PoolView {
                accounts: inserted_all(accounts@),
                bindings: bound_all(bindings@),
                cap: DEFAULT_BINDING_CAP as nat,
                codex_models: model_ids(codex_models@).to_set(),
                copilot_models: model_ids(copilot_models@).to_set(),
            }),
    {
        let mut core = PoolCore {
            accounts: Vec::new(),
            bindings: cache_new(DEFAULT_BINDING_CAP),
            codex_models: ids_of(codex_models),
            copilot_models: ids_of(copilot_models),
        };
        let ghost start = core@;
        for i in 0..accounts.len()
            invariant
                core.wf(),
                core@ == (PoolView { accounts: inserted_all(accounts@.take(i as int)), ..start }),
        {
            assert(accounts@.take(i + 1).drop_last() =~= accounts@.take(i as int));
            core.insert_account(accounts[i].clone());
        }
        assert(accounts@.take(accounts@.len() as int) =~= accounts@);
        let ghost start = core@;
        for i in 0..bindings.len()
            invariant
                core.wf(),
                core@ == (PoolView { bindings: bound_all(bindings@.take(i as int)), ..start }),
        {
            assert(bindings@.take(i + 1).drop_last() =~= bindings@.take(i as int));
            core.bind(bindings[i].cache_key.as_str(), bindings[i].account_id.as_str(), bindings[i].bound_at);
        }
        assert(bindings@.take(bindings@.len() as int) =~= bindings@);
        core
    }

    /// Replaces the catalog of a backend.
    pub fn set_catalog(&mut self, backend: BackendId, models: Vec<String>)
        requires
            old(self).wf(),
        ensures
            final(self).wf(),
            final(self)@ == (match backend {
                BackendId::Codex => PoolView { codex_models: views(models@).to_set(), ..old(self)@ },
                BackendId::Copilot => PoolView {
                    copilot_models: views(models@).to_set(),
                    ..old(self)@
                },
            }),
    {
        match backend {
            BackendId::Codex => {
                self.codex_models = models;
            },
            BackendId::Copilot => {
                self.copilot_models = models;
            },
        }
    }

    /// Whether the catalog of the backend lists the model.
    pub fn serves(&self, backend: BackendId, model: &str) -> (r: bool)
        ensures
            r == self@.serves(backend, model@),
    {
        match backend {
            BackendId::Codex => holds(&self.codex_models, model),
            BackendId::Copilot => holds(&self.copilot_models, model),
        }
    }

    /// Whether the backend may serve the model.
    pub fn may_serve(&self, backend: BackendId, model: &str) -> (r: bool)
        ensures
            r == self@.eligible(backend, model@),
    {
        if self.serves(backend, model) {
            return true;
        }
        match backend {
            BackendId::Codex => !self.serves(BackendId::Copilot, model),
            BackendId::Copilot => false,
        }
    }

    /// Returns accounts whose cooling is over to rotation and drops sticky
    /// sessions that are too old. Gives the ids of the accounts returned.
    pub fn sweep(&mut self, now: i64) -> (r: Vec<String>)
        requires
            old(self).wf(),
        ensures
            final(self).wf(),
            final(self)@ == old(self)@.swept(now as int),
            forall|id: Seq<char>| #[trigger]
                views(r@).contains(id) <==> old(self)@.readmitted(id, now as int),
            views(r@).no_duplicates(),
    {
        let readmitted = self.sweep_accounts(now);
        self.sweep_bindings(now);
        readmitted
    }

    fn sweep_accounts(&mut self, now: i64) -> (r: Vec<String>)
        requires
            old(self).wf(),
        ensures
            final(self).wf(),
            final(self)@ == (PoolView {
                accounts: old(self)@.swept(now as int).accounts,
                ..old(self)@
            }),
            forall|id: Seq<char>| #[trigger]
                views(r@).contains(id) <==> old(self)@.readmitted(id, now as int),
            views(r@).no_duplicates(),
    {
        let ghost start = self.accounts@;
        let ghost f = |s: AccountState|
            AccountState { account: recovered(s.account, now as int), ..s };
        let mut out: Vec<String> = Vec::new();
        let mut i: usize = 0;
        while i < self.accounts.len()
            invariant
                start == old(self).accounts@,
                unique_ids(start),
                f == (|s: AccountState|
                    AccountState { account: recovered(s.account, now as int), ..s }),
                i <= self.accounts@.len() == start.len(),
                self.bindings == old(self).bindings,
                self.codex_models == old(self).codex_models,
                self.copilot_models == old(self).copilot_models,
                forall|j: int| 0 <= j < i ==> #[trigger] self.accounts@[j] == f(start[j]),
                forall|j: int| i <= j < start.len() ==> #[trigger] self.accounts@[j] == start[j],
                forall|k: int|
                    0 <= k < out@.len() ==> exists|j: int|
                        0 <= j < i && start[j].account.id@ == (#[trigger] out@[k])@ && lapsed(
                            start[j].account,
                            now as int,
                        ),
                forall|j: int|
                    0 <= j < i && lapsed((#[trigger] start[j]).account, now as int) ==> views(
                        out@,
                    ).contains(start[j].account.id@),
                views(out@).no_duplicates(),
            decreases start.len() - i,
        {
            let lapsed_here = self.accounts[i].account.status == AccountStatus::Cooling
                && self.accounts[i].account.reset_at <= now;
            let ghost before = out@;
            if lapsed_here {
                self.accounts[i].account.status = AccountStatus::Healthy;
                self.accounts[i].account.reset_at = 0;
                out.push(self.accounts[i].account.id.clone());
                proof {
                    let id = start[i as int].account.id@;
                    assert(views(out@) =~= views(before).push(id));
                    if views(before).contains(id) {
                        let k = choose|k: int| 0 <= k < views(before).len() && views(before)[k] == id;
                        assert(before[k]@ == id);
                        let j = choose|j: int|
                            0 <= j < i && start[j].account.id@ == before[k]@ && lapsed(
                                start[j].account,
                                now as int,
                            );
                        assert(start[j].account.id@ != start[i as int].account.id@);
                    }
                    assert(views(out@)[before.len() as int] == id);
                    assert forall|j: int|
                        0 <= j < i + 1 && lapsed(
                            (#[trigger] start[j]).account,
                            now as int,
                        ) implies views(out@).contains(start[j].account.id@) by {
                        if j < i {
                            let k = choose|k: int|
                                0 <= k < views(before).len() && views(before)[k]
                                    == start[j].account.id@;
                            assert(views(out@)[k] == start[j].account.id@);
                        }
                    }
                    assert forall|k: int| 0 <= k < out@.len() implies exists|j: int|
                        0 <= j < i + 1 && start[j].account.id@ == (#[trigger] out@[k])@ && lapsed(
                            start[j].account,
                            now as int,
                        ) by {
                        if k < before.len() {
                            assert(out@[k] == before[k]);
                            let j = choose|j: int|
                                0 <= j < i && start[j].account.id@ == before[k]@ && lapsed(
                                    start[j].account,
                                    now as int,
                                );
                            assert(0 <= j < i + 1);
                        } else {
                            assert(start[i as int].account.id@ == out@[k]@);
                        }
                    }
                }
            }
            i = i + 1;
        }
        proof {
            assert forall|j: int| 0 <= j < start.len() implies (
            #[trigger] self.accounts@[j]).account.id@ == start[j].account.id@ by {
                assert(self.accounts@[j] == f(start[j]));
            }
            lemma_map_each(start, self.accounts@, f);
            lemma_account_map(start);
            assert(account_map(self.accounts@) =~= old(self)@.swept(now as int).accounts);
            assert(account_map(self.accounts@).dom() =~= account_map(start).dom());
            assert forall|id: Seq<char>| #[trigger] views(out@).contains(id) <==> old(
                self,
            )@.readmitted(id, now as int) by {
                if views(out@).contains(id) {
                    let k = choose|k: int| 0 <= k < views(out@).len() && views(out@)[k] == id;
                    assert(out@[k]@ == id);
                    let j = choose|j: int|
                        0 <= j < start.len() && start[j].account.id@ == out@[k]@ && lapsed(
                            start[j].account,
                            now as int,
                        );
                    assert(account_map(start)[id] == start[j]);
                }
                if old(self)@.readmitted(id, now as int) {
                    let j = choose|j: int| 0 <= j < start.len() && start[j].account.id@ == id;
                    assert(account_map(start)[id] == start[j]);
                }
            }
        }
        out
    }

    fn sweep_bindings(&mut self, now: i64)
        requires
            old(self).wf(),
        ensures
            final(self).wf(),
            final(self)@ == (PoolView {
                bindings: kept(old(self)@.bindings, fresh_at(now as int)),
                ..old(self)@
            }),
    {
        let list = cache_entries(&self.bindings);
        let ghost es = entries(self.bindings);
        let ghost keep = fresh_at(now as int);
        proof {
            lemma_kept(es, keep);
            assert(es.take(0) =~= Seq::<Entry>::empty());
            assert(kept(es.take(0), keep) + es.skip(0) =~= es);
        }
        for i in 0..list.len()
            invariant
                old(self).wf(),
                es == entries(old(self).bindings),
                keep == fresh_at(now as int),
                entry_views(list@) == es,
                self.accounts == old(self).accounts,
                self.codex_models == old(self).codex_models,
                self.copilot_models == old(self).copilot_models,
                capacity(self.bindings) == capacity(old(self).bindings),
                entries(self.bindings) == kept(es.take(i as int), keep) + es.skip(i as int),
        {
            proof {
                lemma_step(es, keep, i as int);
                assert(entry_views(list@)[i as int] == es[i as int]);
            }
            if minus(now, list[i].2) > BINDING_TTL_MS {
                cache_pop(&mut self.bindings, list[i].0.as_str());
            }
        }
        proof {
            assert(es.take(es.len() as int) =~= es);
            assert(kept(es, keep) + es.skip(es.len() as int) =~= kept(es, keep));
        }
    }

    /// The candidate with the fewest requests in flight; of several, the one
    /// with the smallest id.
    fn find_healthy(&self, model: &str, only: Option<BackendId>) -> (r: Option<String>)
        requires
            self.wf(),
        ensures
            crate::text::opt_view(r) == self@.pick(model@, only),
            r matches Some(id) ==> self@.candidate(model@, only, id@),
    {
        let codex = self.may_serve(BackendId::Codex, model);
        let copilot = self.may_serve(BackendId::Copilot, model);
        let mut best: Option<usize> = None;
        proof {
            lemma_account_map(self.accounts@);
        }
        for i in 0..self.accounts.len()
            invariant
                codex == self@.eligible(BackendId::Codex, model@),
                copilot == self@.eligible(BackendId::Copilot, model@),
                forall|j: int|
                    0 <= j < self.accounts@.len() ==> self@.accounts.contains_key(
                        (#[trigger] self.accounts@[j]).account.id@,
                    ) && self@.accounts[self.accounts@[j].account.id@] == self.accounts@[j],
                unique_ids(self.accounts@),
                match best {
                    Some(b) => {
                        &&& b < i
                        &&& self@.candidate(model@, only, self.accounts@[b as int].account.id@)
                        &&& forall|j: int|
                            0 <= j < i && j != b && self@.candidate(
                                model@,
                                only,
                                (#[trigger] self.accounts@[j]).account.id@,
                            ) ==> self@.ahead(
                                self.accounts@[b as int].account.id@,
                                self.accounts@[j].account.id@,
                            )
                    },
                    None => forall|j: int|
                        0 <= j < i ==> !self@.candidate(
                            model@,
                            only,
                            (#[trigger] self.accounts@[j]).account.id@,
                        ),
                },
        {
            let state = &self.accounts[i];
            let served = match state.account.backend {
                BackendId::Codex => codex,
                BackendId::Copilot => copilot,
            };
            let wanted = match only {
                Some(b) => state.account.backend == b,
                None => true,
            };
            let ghost id = self.accounts@[i as int].account.id@;
            if state.account.healthy() && served && wanted {
                assert(self@.candidate(model@, only, id));
                match best {
                    Some(b) => {
                        let other = &self.accounts[b];
                        let ghost bid = self.accounts@[b as int].account.id@;
                        assert(bid != id);
                        let better = state.inflight < other.inflight || (state.inflight
                            == other.inflight && is_below(
                            state.account.id.as_str(),
                            other.account.id.as_str(),
                        ));
                        proof {
                            law_order_total(id, bid);
                            assert forall|j: int|
                                0 <= j < i && j != b && better && self@.candidate(
                                    model@,
                                    only,
                                    (#[trigger] self.accounts@[j]).account.id@,
                                ) implies self@.ahead(id, self.accounts@[j].account.id@) by {
                                let jid = self.accounts@[j].account.id@;
                                if self@.accounts[id].inflight == self@.accounts[bid].inflight
                                    && self@.accounts[bid].inflight == self@.accounts[jid].inflight {
                                    law_order_transitive(id, bid, jid);
                                }
                            }
                        }
                        if better {
                            best = Some(i);
                        }
                    },
                    None => {
                        best = Some(i);
                    },
                }
            } else {
                assert(!self@.candidate(model@, only, id));
            }
        }
        match best {
            Some(b) => {
                proof {
                    let bid = self.accounts@[b as int].account.id@;
                    assert forall|other: Seq<char>| #[trigger]
                        self@.candidate(model@, only, other) && other != bid implies self@.ahead(
                        bid,
                        other,
                    ) by {
                        let j = choose|j: int|
                            0 <= j < self.accounts@.len() && self.accounts@[j].account.id@ == other;
                        assert(self.accounts@[j].account.id@ == other);
                    }
                    lemma_pick_is(self@, model@, only, bid);
                }
                Some(self.accounts[b].account.id.clone())
            },
            None => {
                proof {
                    assert forall|id: Seq<char>| !self@.is_pick(model@, only, id) by {
                        if self@.candidate(model@, only, id) {
                            let j = choose|j: int|
                                0 <= j < self.accounts@.len() && self.accounts@[j].account.id@ == id;
                            assert(self.accounts@[j].account.id@ == id);
                        }
                    }
                }
                None
            },
        }
    }

    /// The earliest reset of the accounts that are cooling and may serve the
    /// model.
    fn min_reset(&self, model: &str) -> (r: Option<i64>)
        requires
            self.wf(),
        ensures
            r == self@.earliest_reset(model@),
    {
        let codex = self.may_serve(BackendId::Codex, model);
        let copilot = self.may_serve(BackendId::Copilot, model);
        let mut least: Option<i64> = None;
        proof {
            lemma_account_map(self.accounts@);
        }
        for i in 0..self.accounts.len()
            invariant
                codex == self@.eligible(BackendId::Codex, model@),
                copilot == self@.eligible(BackendId::Copilot, model@),
                forall|j: int|
                    0 <= j < self.accounts@.len() ==> self@.accounts.contains_key(
                        (#[trigger] self.accounts@[j]).account.id@,
                    ) && self@.accounts[self.accounts@[j].account.id@] == self.accounts@[j],
                match least {
                    Some(at) => {
                        &&& exists|id: Seq<char>| #[trigger]
                            self@.cooling(model@, id) && self@.accounts[id].account.reset_at == at
                        &&& forall|j: int|
                            0 <= j < i && self@.cooling(
                                model@,
                                (#[trigger] self.accounts@[j]).account.id@,
                            ) ==> at <= self.accounts@[j].account.reset_at
                    },
                    None => forall|j: int|
                        0 <= j < i ==> !self@.cooling(
                            model@,
                            (#[trigger] self.accounts@[j]).account.id@,
                        ),
                },
        {
            let state = &self.accounts[i];
            let served = match state.account.backend {
                BackendId::Codex => codex,
                BackendId::Copilot => copilot,
            };
            if state.account.status == AccountStatus::Cooling && served {
                let at = state.account.reset_at;
                assert(self@.cooling(model@, self.accounts@[i as int].account.id@));
                match least {
                    Some(t) => {
                        if at < t {
                            least = Some(at);
                        }
                    },
                    None => {
                        least = Some(at);
                    },
                }
            } else {
                assert(!self@.cooling(model@, self.accounts@[i as int].account.id@));
            }
        }
        proof {
            match least {
                Some(at) => {
                    assert forall|id: Seq<char>| #[trigger] self@.cooling(model@, id) implies at
                        <= self@.accounts[id].account.reset_at by {
                        let j = choose|j: int|
                            0 <= j < self.accounts@.len() && self.accounts@[j].account.id@ == id;
                        assert(self.accounts@[j].account.id@ == id);
                    }
                    assert(self@.is_earliest(model@, at));
                    let chosen = choose|at: i64| self@.is_earliest(model@, at);
                    assert(self@.is_earliest(model@, chosen));
                },
                None => {
                    assert forall|at: i64| !self@.is_earliest(model@, at) by {
                        if self@.is_earliest(model@, at) {
                            let id = choose|id: Seq<char>| #[trigger]
                                self@.cooling(model@, id) && self@.accounts[id].account.reset_at
                                    == at;
                            let j = choose|j: int|
                                0 <= j < self.accounts@.len() && self.accounts@[j].account.id@
                                    == id;
                            assert(self.accounts@[j].account.id@ == id);
                        }
                    }
                },
            }
        }
        least
    }

    fn bind(&mut self, key: &str, account_id: &str, now: i64)
        requires
            old(self).wf(),
        ensures
            final(self).wf(),
            final(self)@ == old(self)@.bound(key@, account_id@, now as int),
    {
        proof {
            lemma_cache_stays_valid(self@.bindings, self@.cap, (key@, account_id@, now as int));
        }
        cache_put(&mut self.bindings, key.to_owned(), account_id.to_owned(), now);
    }

    /// The backend of the account, if the pool has it.
    fn backend_of(&self, id: &str) -> (r: Option<BackendId>)
        requires
            self.wf(),
        ensures
            r == (if self@.accounts.contains_key(id@) {
                Some(self@.accounts[id@].account.backend)
            } else {
                None
            }),
    {
        match self.find(id) {
            Some(i) => Some(self.accounts[i].account.backend),
            None => None,
        }
    }

    /// Chooses the account that serves a request for `model` at `now`.
    pub fn select(&mut self, now: i64, sticky: Option<&str>, model: &str) -> (r: Result<
        Selection,
        SelectError,
    >)
        requires
            old(self).wf(),
        ensures
            final(self).wf(),
            (choice_view(r), final(self)@) == old(self)@.selected(
                now as int,
                opt_str_view(sticky),
                model@,
            ),
    {
        let readmitted = self.sweep(now);
        if let Some(key) = sticky {
            proof {
                lemma_cache_stays_valid(self@.bindings, self@.cap, (key@, key@, 0));
            }
            let bound = cache_get(&mut self.bindings, key);
            if let Some((bound_id, bound_at)) = bound {
                let preferred = self.backend_of(bound_id.as_str());
                if let Some(backend) = preferred {
                    if self.is_healthy(bound_id.as_str()) && self.may_serve(backend, model) {
                        return Ok(
                            Selection {
                                account_id: bound_id,
                                backend,
                                decision: Decision::StickyHit,
                            },
                        );
                    }
                }
                if let Some(next) = self.find_healthy(model, preferred) {
                    let backend = self.backend_of(next.as_str()).unwrap();
                    self.bind(key, next.as_str(), now);
                    return Ok(
                        Selection { account_id: next, backend, decision: Decision::StickyRebind },
                    );
                }
            }
        }
        if let Some(next) = self.find_healthy(model, None) {
            let backend = self.backend_of(next.as_str()).unwrap();
            let decision = match sticky {
                Some(key) => {
                    self.bind(key, next.as_str(), now);
                    Decision::NewBinding
                },
                None => Decision::Unsticky,
            };
            return Ok(Selection { account_id: next, backend, decision });
        }
        match self.min_reset(model) {
            Some(until_ms) => Err(SelectError::Saturated { until_ms }),
            None => Err(SelectError::NoAccounts),
        }
    }

    /// Whether the pool has the account and it is healthy.
    fn is_healthy(&self, id: &str) -> (r: bool)
        requires
            self.wf(),
        ensures
            r == (self@.accounts.contains_key(id@) && self@.accounts[id@].account.is_healthy()),
    {
        match self.find(id) {
            Some(i) => self.accounts[i].account.healthy(),
            None => false,
        }
    }

    /// Increments the in-flight counter of the account.
    pub fn acquire(&mut self, account_id: &str)
        requires
            old(self).wf(),
        ensures
            final(self).wf(),
            final(self)@ == old(self)@.with_inflight(account_id@, |n: u32| n + 1),
    {
        if let Some(i) = self.find(account_id) {
            let n = self.accounts[i].inflight;
            self.accounts[i].inflight = n.saturating_add(1);
            proof {
                lemma_map_update(old(self).accounts@, i as int, self.accounts@[i as int]);
                assert(self.accounts@ =~= old(self).accounts@.update(
                    i as int,
                    self.accounts@[i as int],
                ));
            }
        }
    }

    /// Decrements the in-flight counter of the account, never below zero.
    pub fn release(&mut self, account_id: &str)
        requires
            old(self).wf(),
        ensures
            final(self).wf(),
            final(self)@ == old(self)@.with_inflight(account_id@, |n: u32| n - 1),
    {
        if let Some(i) = self.find(account_id) {
            let n = self.accounts[i].inflight;
            self.accounts[i].inflight = n.saturating_sub(1);
            proof {
                lemma_map_update(old(self).accounts@, i as int, self.accounts@[i as int]);
                assert(self.accounts@ =~= old(self).accounts@.update(
                    i as int,
                    self.accounts@[i as int],
                ));
            }
        }
    }

    /// Takes the outcome of an attempt into account. Gives the new status if it
    /// was set.
    pub fn report(&mut self, account_id: &str, outcome: Outcome) -> (r: Option<AccountStatus>)
        requires
            old(self).wf(),
        ensures
            final(self).wf(),
            final(self)@ == (match outcome_status(outcome) {
                Some((status, reset_at)) => old(self)@.with_status(account_id@, status, reset_at),
                None => old(self)@,
            }),
            r == (match outcome_status(outcome) {
                Some((status, _)) if old(self)@.accounts.contains_key(account_id@) => Some(status),
                _ => None,
            }),
    {
        let change = match outcome {
            Outcome::QuotaExhausted { until_ms } => Some((AccountStatus::Cooling, until_ms)),
            Outcome::AuthFailed => Some((AccountStatus::AuthError, 0i64)),
            Outcome::Transient | Outcome::Success => None,
        };
        match change {
            Some((status, reset_at)) => {
                let known = self.find(account_id).is_some();
                self.set_status(account_id, status, reset_at);
                if known {
                    Some(status)
                } else {
                    None
                }
            },
            None => None,
        }
    }

    /// Sets the status of the account and its reset time.
    pub fn set_status(&mut self, account_id: &str, status: AccountStatus, reset_at: i64)
        requires
            old(self).wf(),
        ensures
            final(self).wf(),
            final(self)@ == old(self)@.with_status(account_id@, status, reset_at),
    {
        if let Some(i) = self.find(account_id) {
            self.accounts[i].account.status = status;
            self.accounts[i].account.reset_at = reset_at;
            proof {
                lemma_map_update(old(self).accounts@, i as int, self.accounts@[i as int]);
                assert(self.accounts@ =~= old(self).accounts@.update(
                    i as int,
                    self.accounts@[i as int],
                ));
            }
        }
    }

    /// Puts the account in, with no request in flight, in place of one with the
    /// same id.
    pub fn insert_account(&mut self, account: Account)
        requires
            old(self).wf(),
        ensures
            final(self).wf(),
            final(self)@ == (PoolView {
                accounts: old(self)@.accounts.insert(
                    account.id@,
                    AccountState { account, inflight: 0 },
                ),
                ..old(self)@
            }),
    {
        self.put_state(AccountState { account, inflight: 0 });
    }

    fn put_state(&mut self, state: AccountState)
        requires
            old(self).wf(),
        ensures
            final(self).wf(),
            final(self)@ == (PoolView {
                accounts: old(self)@.accounts.insert(state.account.id@, state),
                ..old(self)@
            }),
    {
        match self.find(state.account.id.as_str()) {
            Some(i) => {
                proof {
                    lemma_map_update(self.accounts@, i as int, state);
                }
                self.accounts.set(i, state);
            },
            None => {
                proof {
                    lemma_map_push(self.accounts@, state);
                }
                self.accounts.push(state);
            },
        }
    }

    /// Puts the account in as it is now stored, and keeps its requests in
    /// flight.
    pub fn sync_account(&mut self, account: Account)
        requires
            old(self).wf(),
        ensures
            final(self).wf(),
            final(self)@ == old(self)@.synced(account),
    {
        let inflight: u32 = match self.find(account.id.as_str()) {
            Some(i) => self.accounts[i].inflight,
            None => 0,
        };
        self.put_state(AccountState { account, inflight });
    }

    /// Takes the accounts in as they are stored; one whose cooling is over comes
    /// in healthy. Gives the ids of those, in order, whose stored status has to
    /// follow.
    pub fn sync_from_store(&mut self, listed: Vec<Account>, now: i64) -> (r: Vec<String>)
        requires
            old(self).wf(),
        ensures
            final(self).wf(),
            final(self)@ == old(self)@.synced_all(listed@, now as int),
            views(r@) == lapsed_ids(listed@, now as int),
    {
        let mut out: Vec<String> = Vec::new();
        let ghost start = self@;
        assert(views(out@) =~= lapsed_ids(listed@.take(0), now as int));
        for i in 0..listed.len()
            invariant
                self.wf(),
                self@ == start.synced_all(listed@.take(i as int), now as int),
                views(out@) == lapsed_ids(listed@.take(i as int), now as int),
        {
            assert(listed@.take(i + 1).drop_last() =~= listed@.take(i as int));
            let mut account = listed[i].clone();
            if account.status == AccountStatus::Cooling && account.reset_at <= now {
                account.status = AccountStatus::Healthy;
                account.reset_at = 0;
                let ghost before = out@;
                out.push(account.id.clone());
                assert(views(out@) =~= views(before).push(account.id@));
            }
            self.sync_account(account);
        }
        assert(listed@.take(listed@.len() as int) =~= listed@);
        out
    }

    /// Drops the sticky sessions of stored accounts that the pool does not have.
    pub fn drop_unknown(&mut self, relisted: &Vec<Account>)
        requires
            old(self).wf(),
        ensures
            final(self).wf(),
            final(self)@.accounts == old(self)@.accounts,
            final(self)@ == old(self)@.without_unknown(relisted@),
    {
        let ghost start = self@;
        for i in 0..relisted.len()
            invariant
                self.wf(),
                start == old(self)@,
                self@.accounts == start.accounts,
                self@ == start.without_unknown(relisted@.take(i as int)),
        {
            assert(relisted@.take(i + 1).drop_last() =~= relisted@.take(i as int));
            if self.find(relisted[i].id.as_str()).is_none() {
                self.remove_account(relisted[i].id.as_str());
                assert(start.accounts.remove(relisted@[i as int].id@) =~= start.accounts);
            }
        }
        assert(relisted@.take(relisted@.len() as int) =~= relisted@);
    }

    /// Takes the account out, with its sticky sessions.
    pub fn remove_account(&mut self, account_id: &str)
        requires
            old(self).wf(),
        ensures
            final(self).wf(),
            final(self)@ == old(self)@.without_account(account_id@),
    {
        match self.find(account_id) {
            Some(i) => {
                proof {
                    lemma_map_remove(self.accounts@, i as int);
                }
                let gone = self.accounts.remove(i);
            },
            None => {
                assert(self@.accounts.remove(account_id@) =~= self@.accounts);
            },
        }
        let list = cache_entries(&self.bindings);
        let ghost mid = *self;
        let ghost es = entries(self.bindings);
        let ghost keep = not_to(account_id@);
        proof {
            lemma_kept(es, keep);
            assert(es.take(0) =~= Seq::<Entry>::empty());
            assert(kept(es.take(0), keep) + es.skip(0) =~= es);
        }
        for i in 0..list.len()
            invariant
                distinct_keys(es),
                es == entries(mid.bindings),
                keep == not_to(account_id@),
                entry_views(list@) == es,
                self.accounts == mid.accounts,
                self.codex_models == mid.codex_models,
                self.copilot_models == mid.copilot_models,
                capacity(self.bindings) == capacity(mid.bindings),
                entries(self.bindings) == kept(es.take(i as int), keep) + es.skip(i as int),
        {
            proof {
                lemma_step(es, keep, i as int);
                assert(entry_views(list@)[i as int] == es[i as int]);
            }
            if same(list[i].1.as_str(), account_id) {
                cache_pop(&mut self.bindings, list[i].0.as_str());
            }
        }
        proof {
            assert(es.take(es.len() as int) =~= es);
            assert(kept(es, keep) + es.skip(es.len() as int) =~= kept(es, keep));
        }
    }

    /// The account `account_id`.
    pub fn account(&self, account_id: &str) -> (r: Option<&Account>)
        requires
            self.wf(),
        ensures
            match r {
                Some(a) => self@.accounts.contains_key(account_id@)
                    && self@.accounts[account_id@].account == *a,
                None => !self@.accounts.contains_key(account_id@),
            },
    {
        match self.find(account_id) {
            Some(i) => Some(&self.accounts[i].account),
            None => None,
        }
    }

    /// The requests in flight on the account.
    pub fn inflight(&self, account_id: &str) -> (r: Option<u32>)
        requires
            self.wf(),
        ensures
            r == (if self@.accounts.contains_key(account_id@) {
                Some(self@.accounts[account_id@].inflight)
            } else {
                None
            }),
    {
        match self.find(account_id) {
            Some(i) => Some(self.accounts[i].inflight),
            None => None,
        }
    }

    /// The number of accounts.
    pub fn account_count(&self) -> (r: usize)
        requires
            self.wf(),
        ensures
            r == self@.accounts.dom().len(),
    {
        proof {
            lemma_map_len(self.accounts@);
        }
        self.accounts.len()
    }

    /// All accounts of the pool, each once.
    pub fn states(&self) -> (r: &Vec<AccountState>)
        requires
            self.wf(),
        ensures
            unique_ids(r@),
            account_map(r@) == self@.accounts,
            r@.len() == self@.accounts.dom().len(),
    {
        proof {
            lemma_map_len(self.accounts@);
        }
        &self.accounts
    }

    /// The sticky sessions that are bound to an account of the pool, the most
    /// recently used one first.
    pub fn bindings(&self) -> (r: Vec<Binding>)
        requires
            self.wf(),
        ensures
            binding_views(r@) == self@.listed_bindings(),
            r@.len() <= DEFAULT_BINDING_CAP,
    {
        let list = cache_entries(&self.bindings);
        let mut out: Vec<Binding> = Vec::new();
        assert(binding_views(out@) =~= listed(self@.accounts, self@.bindings.take(0)));
        for i in 0..list.len()
            invariant
                self.wf(),
                entry_views(list@) == self@.bindings,
                out@.len() <= i,
                binding_views(out@) == listed(self@.accounts, self@.bindings.take(i as int)),
        {
            assert(self@.bindings.take(i + 1).drop_last() =~= self@.bindings.take(i as int));
            assert(entry_views(list@)[i as int] == self@.bindings[i as int]);
            if let Some(backend) = self.backend_of(list[i].1.as_str()) {
                let ghost before = out@;
                let b = Binding {
                    cache_key: list[i].0.clone(),
                    account_id: list[i].1.clone(),
                    backend,
                    bound_at: list[i].2,
                };
                out.push(b);
                assert(binding_views(out@) =~= binding_views(before).push(binding_view(b)));
            }
        }
        assert(self@.bindings.take(self@.bindings.len() as int) =~= self@.bindings);
        out
    }
}

proof fn lemma_pick_is(v: PoolView, model: Seq<char>, only: Option<BackendId>, id: Seq<char>)
    requires
        v.is_pick(model, only, id),
    ensures
        v.pick(model, only) == Some(id),
{
    let x = choose|x: Seq<char>| v.is_pick(model, only, x);
    assert(v.is_pick(model, only, x));
    if x != id {
        assert(v.candidate(model, only, x));
        assert(v.candidate(model, only, id));
        law_order_total(x, id);
    }
}

/// Going on to the next entry: it stays, or it is taken out.
proof fn lemma_step(es: Seq<Entry>, keep: spec_fn(Entry) -> bool, i: int)
    requires
        distinct_keys(es),
        0 <= i < es.len(),
    ensures
        ({
            let now = kept(es.take(i), keep) + es.skip(i);
            let next = kept(es.take(i + 1), keep) + es.skip(i + 1);
            &&& keep(es[i]) ==> next == now
            &&& !keep(es[i]) ==> next == without_key(now, es[i].0)
        }),
{
    let a = kept(es.take(i), keep);
    let e = es[i];
    let b = es.skip(i + 1);
    assert(es.take(i + 1).drop_last() =~= es.take(i));
    assert(es.skip(i) =~= seq![e] + b);
    if keep(e) {
        assert(a.push(e) + b =~= a + es.skip(i));
    } else {
        lemma_kept(es.take(i), keep);
        let s = a + seq![e] + b;
        assert(a + es.skip(i) =~= s);
        assert forall|x: int, y: int| 0 <= x < y < es.take(i).len() implies (#[trigger] es.take(
            i,
        )[x]).0 != (#[trigger] es.take(i)[y]).0 by {
            assert(es[x].0 != es[y].0);
        }
        assert forall|x: int, y: int| 0 <= x < y < s.len() implies (#[trigger] s[x]).0 != (
        #[trigger] s[y]).0 by {
            let n = a.len();
            if y < n {
                assert(a[x].0 != a[y].0);
            } else {
                let yy = i + (y - n);
                assert(s[y] == es[yy]);
                if x < n {
                    assert(s[x] == a[x]);
                    assert(a.contains(a[x]));
                    let k = choose|k: int| 0 <= k < es.take(i).len() && es.take(i)[k] == a[x];
                    assert(es[k].0 != es[yy].0);
                } else {
                    let xx = i + (x - n);
                    assert(s[x] == es[xx]);
                    assert(es[xx].0 != es[yy].0);
                }
            }
        }
        lemma_take_out(a, e, b);
    }
}

/// The ids of a list of models.
pub open spec fn model_ids(v: Seq<ModelInfo>) -> Seq<Seq<char>> {
    v.map_values(|m: ModelInfo| m.id@)
}

/// The ids of a list of models.
pub fn ids_of(models: &Vec<ModelInfo>) -> (r: Vec<String>)
    ensures
        views(r@) == model_ids(models@),
{
    let mut out: Vec<String> = Vec::new();
    for i in 0..models.len()
        invariant
            out@.len() == i,
            forall|j: int| 0 <= j < i ==> (#[trigger] out@[j])@ == models@[j].id@,
    {
        out.push(models[i].id.clone());
    }
    assert(views(out@) =~= model_ids(models@));
    out
}

} // verus!
