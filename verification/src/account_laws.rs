//! What the operations on the pool do to each account and session.
use crate::models::{Account, AccountStatus, Binding, Outcome};
use crate::pool::{
    bound_all, distinct_keys, inserted_all, kept, lapsed_ids, lemma_cache_stays_valid, lemma_kept,
    lemma_lookup, listed, not_to, AccountState, BindingView, PoolView, DEFAULT_BINDING_CAP,
};
use crate::pool_laws::law_sweep_readmits_expired_cooling;
use crate::proxy::{reported, stored_status};
use crate::sticky::{lookup, Entry};
use vstd::prelude::*;

verus! {

/// All of the account but its health is the same.
pub open spec fn same_but_health(a: Account, b: Account) -> bool {
    &&& a.id == b.id && a.backend == b.backend && a.label == b.label
    &&& a.refresh_token == b.refresh_token && a.access_token == b.access_token
    &&& a.expires_at == b.expires_at && a.token_refreshed_at == b.token_refreshed_at
    &&& a.account_id == b.account_id && a.residency == b.residency
    &&& a.enterprise_url == b.enterprise_url
    &&& a.created_at == b.created_at && a.updated_at == b.updated_at
}

/// A sweep makes an account healthy exactly if it cools and the end of that has
/// come; it leaves every other account, what an account has in flight, and which
/// accounts there are.
pub proof fn law_sweep_ends_cooling_on_time(v: PoolView, now: int, id: Seq<char>)
    requires
        v.wf(),
    ensures
        v.swept(now).accounts.contains_key(id) <==> v.accounts.contains_key(id),
        v.accounts.contains_key(id) ==> {
            let a = v.accounts[id].account;
            let b = v.swept(now).accounts[id].account;
            &&& v.swept(now).accounts[id].inflight == v.accounts[id].inflight
            &&& same_but_health(a, b)
            &&& if a.status == AccountStatus::Cooling && now >= a.reset_at {
                b.status == AccountStatus::Healthy && b.reset_at == 0
            } else {
                b.status == a.status && b.reset_at == a.reset_at
            }
        },
        v.readmitted(id, now) <==> v.accounts.contains_key(id) && v.accounts[id].account.status
            == AccountStatus::Cooling && v.accounts[id].account.reset_at <= now,
        forall|e: Entry| #[trigger]
            v.swept(now).bindings.contains(e) <==> v.bindings.contains(e) && now <= e.2
                + 86_400_000,
        v.swept(now).codex_models == v.codex_models,
        v.swept(now).copilot_models == v.copilot_models,
{
    law_sweep_readmits_expired_cooling(v, now);
}

/// A report of exhausted quota cools the account until the reported time, one of a
/// rejected credential takes it out, and one of a success or of a passing failure
/// changes nothing. What is stored is the new status. No report changes
/// another account, what is in flight, a session or a catalog.
pub proof fn law_report_sets_the_health(
    v: PoolView,
    id: Seq<char>,
    outcome: Outcome,
    other: Seq<char>,
)
    ensures
        ({
            let w = reported(v, id, outcome);
            &&& w.bindings == v.bindings && w.codex_models == v.codex_models && w.copilot_models
                == v.copilot_models && w.cap == v.cap
            &&& w.accounts.contains_key(other) <==> v.accounts.contains_key(other)
            &&& other != id && v.accounts.contains_key(other) ==> w.accounts[other]
                == v.accounts[other]
            &&& v.accounts.contains_key(id) ==> {
                let a = v.accounts[id].account;
                let b = w.accounts[id].account;
                &&& w.accounts[id].inflight == v.accounts[id].inflight
                &&& same_but_health(a, b)
                &&& match outcome {
                    Outcome::QuotaExhausted { until_ms } => {
                        &&& b.status == AccountStatus::Cooling && b.reset_at == until_ms
                        &&& stored_status(v, id, outcome) == Some(
                            (AccountStatus::Cooling, until_ms),
                        )
                    },
                    Outcome::AuthFailed => {
                        &&& b.status == AccountStatus::AuthError && b.reset_at == 0
                        &&& stored_status(v, id, outcome) == Some((AccountStatus::AuthError, 0i64))
                    },
                    _ => {
                        &&& b.status == a.status && b.reset_at == a.reset_at
                        &&& stored_status(v, id, outcome) is None
                    },
                }
            }
            &&& !v.accounts.contains_key(id) ==> stored_status(v, id, outcome) is None
        }),
{
}

/// A status that is set changes the health of that account and nothing else.
pub proof fn law_status_is_set_on_one_account(
    v: PoolView,
    id: Seq<char>,
    status: AccountStatus,
    reset_at: i64,
    other: Seq<char>,
)
    ensures
        ({
            let w = v.with_status(id, status, reset_at);
            &&& w.bindings == v.bindings && w.codex_models == v.codex_models && w.copilot_models
                == v.copilot_models && w.cap == v.cap
            &&& w.accounts.contains_key(other) <==> v.accounts.contains_key(other)
            &&& other != id && v.accounts.contains_key(other) ==> w.accounts[other]
                == v.accounts[other]
            &&& v.accounts.contains_key(id) ==> {
                &&& w.accounts[id].inflight == v.accounts[id].inflight
                &&& same_but_health(v.accounts[id].account, w.accounts[id].account)
                &&& w.accounts[id].account.status == status
                &&& w.accounts[id].account.reset_at == reset_at
            }
        }),
{
}

/// A request that begins counts one more on its account, up to the largest
/// number; one that ends counts one less, down to none. Other accounts, the
/// health and the sessions stay.
pub proof fn law_requests_in_flight_are_counted(v: PoolView, id: Seq<char>, other: Seq<char>)
    requires
        v.accounts.contains_key(id),
    ensures
        ({
            let n = v.accounts[id].inflight;
            let begun = v.with_inflight(id, |n: u32| n + 1);
            let ended = v.with_inflight(id, |n: u32| n - 1);
            &&& begun.accounts[id].inflight == (if n == u32::MAX {
                n as int
            } else {
                n + 1
            })
            &&& ended.accounts[id].inflight == (if n == 0 {
                0
            } else {
                n - 1
            })
            &&& begun.accounts[id].account == v.accounts[id].account
            &&& ended.accounts[id].account == v.accounts[id].account
            &&& begun.accounts.contains_key(other) <==> v.accounts.contains_key(other)
            &&& ended.accounts.contains_key(other) <==> v.accounts.contains_key(other)
            &&& other != id && v.accounts.contains_key(other) ==> begun.accounts[other]
                == v.accounts[other] && ended.accounts[other] == v.accounts[other]
            &&& begun.bindings == v.bindings && ended.bindings == v.bindings
        }),
{
}

/// The stored accounts are taken in as they are stored, but for those whose
/// cooling is over, which are healthy. What is in flight stays, and an account that
/// is new has nothing in flight. Accounts that are not stored, the sessions and
/// the catalogs stay.
pub proof fn law_stored_accounts_are_taken_in(
    v: PoolView,
    list: Seq<Account>,
    now: int,
    i: int,
    other: Seq<char>,
)
    requires
        0 <= i < list.len(),
        forall|j: int| i < j < list.len() ==> (#[trigger] list[j]).id@ != list[i].id@,
        forall|j: int| 0 <= j < list.len() ==> (#[trigger] list[j]).id@ != other,
    ensures
        ({
            let w = v.synced_all(list, now);
            let a = list[i];
            let id = a.id@;
            &&& w.accounts.contains_key(id)
            &&& same_but_health(a, w.accounts[id].account)
            &&& if a.status == AccountStatus::Cooling && a.reset_at <= now {
                w.accounts[id].account.status == AccountStatus::Healthy
                    && w.accounts[id].account.reset_at == 0
            } else {
                w.accounts[id].account.status == a.status && w.accounts[id].account.reset_at
                    == a.reset_at
            }
            &&& v.accounts.contains_key(id) ==> w.accounts[id].inflight == v.accounts[id].inflight
            &&& !v.accounts.contains_key(id) ==> w.accounts[id].inflight == 0
            &&& w.accounts.contains_key(other) <==> v.accounts.contains_key(other)
            &&& v.accounts.contains_key(other) ==> w.accounts[other] == v.accounts[other]
            &&& w.bindings == v.bindings && w.codex_models == v.codex_models && w.copilot_models
                == v.copilot_models
        }),
    decreases list.len(),
{
    let head = list.drop_last();
    lemma_sync_inflight(v, head, now, list[i].id@);
    lemma_sync_others(v, head, now, other);
    if i < head.len() {
        assert forall|j: int| i < j < head.len() implies (#[trigger] head[j]).id@ != head[i].id@ by {
            assert(head[j] == list[j]);
        }
        assert forall|j: int| 0 <= j < head.len() implies (#[trigger] head[j]).id@ != other by {
            assert(head[j] == list[j]);
        }
        law_stored_accounts_are_taken_in(v, head, now, i, other);
        assert(list.last() == list[list.len() - 1]);
        assert(head[i] == list[i]);
    }
}

proof fn lemma_sync_inflight(v: PoolView, list: Seq<Account>, now: int, id: Seq<char>)
    ensures
        ({
            let w = v.synced_all(list, now);
            &&& v.accounts.contains_key(id) ==> w.accounts.contains_key(id)
                && w.accounts[id].inflight == v.accounts[id].inflight
            &&& !v.accounts.contains_key(id) && w.accounts.contains_key(id)
                ==> w.accounts[id].inflight == 0
            &&& w.bindings == v.bindings && w.codex_models == v.codex_models && w.copilot_models
                == v.copilot_models
        }),
    decreases list.len(),
{
    if list.len() > 0 {
        lemma_sync_inflight(v, list.drop_last(), now, id);
    }
}

proof fn lemma_sync_others(v: PoolView, list: Seq<Account>, now: int, other: Seq<char>)
    requires
        forall|j: int| 0 <= j < list.len() ==> (#[trigger] list[j]).id@ != other,
    ensures
        v.synced_all(list, now).accounts.contains_key(other) <==> v.accounts.contains_key(other),
        v.accounts.contains_key(other) ==> v.synced_all(list, now).accounts[other]
            == v.accounts[other],
    decreases list.len(),
{
    if list.len() > 0 {
        let head = list.drop_last();
        assert forall|j: int| 0 <= j < head.len() implies (#[trigger] head[j]).id@ != other by {
            assert(head[j] == list[j]);
        }
        lemma_sync_others(v, head, now, other);
        assert(list.last() == list[list.len() - 1]);
    }
}

/// The ids that are reported as readmitted are those of the stored accounts that
/// cool although the end of that has come.
pub proof fn law_readmitted_ids_are_those_past_cooling(list: Seq<Account>, now: int, id: Seq<char>)
    ensures
        lapsed_ids(list, now).contains(id) <==> exists|i: int|
            0 <= i < list.len() && (#[trigger] list[i]).id@ == id && list[i].status
                == AccountStatus::Cooling && list[i].reset_at <= now,
        lapsed_ids(list, now).len() <= list.len(),
    decreases list.len(),
{
    if list.len() > 0 {
        let head = list.drop_last();
        let ids = lapsed_ids(head, now);
        law_readmitted_ids_are_those_past_cooling(head, now, id);
        let last = list.last();
        assert(list[list.len() - 1] == last);
        if ids.contains(id) {
            let i = choose|i: int|
                0 <= i < head.len() && (#[trigger] head[i]).id@ == id && head[i].status
                    == AccountStatus::Cooling && head[i].reset_at <= now;
            assert(list[i] == head[i]);
            let k = choose|k: int| 0 <= k < ids.len() && ids[k] == id;
            assert(lapsed_ids(list, now)[k] == id);
        }
        if last.status == AccountStatus::Cooling && last.reset_at <= now {
            assert(lapsed_ids(list, now)[ids.len() as int] == last.id@);
        }
        if lapsed_ids(list, now).contains(id) && !ids.contains(id) {
            let k = choose|k: int|
                0 <= k < lapsed_ids(list, now).len() && lapsed_ids(list, now)[k] == id;
            if k < ids.len() {
                assert(ids[k] == id);
            }
        }
        if exists|i: int|
            0 <= i < list.len() && (#[trigger] list[i]).id@ == id && list[i].status
                == AccountStatus::Cooling && list[i].reset_at <= now {
            let i = choose|i: int|
                0 <= i < list.len() && (#[trigger] list[i]).id@ == id && list[i].status
                    == AccountStatus::Cooling && list[i].reset_at <= now;
            if i < head.len() {
                assert(head[i] == list[i]);
            }
        }
    }
}

/// A new pool knows the accounts that it is given, each as it was given last, with
/// nothing in flight.
pub proof fn law_new_pool_knows_its_accounts(list: Seq<Account>, i: int, id: Seq<char>)
    ensures
        inserted_all(list).contains_key(id) <==> exists|j: int|
            0 <= j < list.len() && (#[trigger] list[j]).id@ == id,
        0 <= i < list.len() && (forall|j: int|
            i < j < list.len() ==> (#[trigger] list[j]).id@ != list[i].id@) ==> inserted_all(
            list,
        ).contains_key(list[i].id@) && inserted_all(list)[list[i].id@] == (AccountState {
            account: list[i],
            inflight: 0,
        }),
    decreases list.len(),
{
    if list.len() > 0 {
        let head = list.drop_last();
        law_new_pool_knows_its_accounts(head, i, id);
        assert(list[list.len() - 1] == list.last());
        if inserted_all(head).contains_key(id) {
            let j = choose|j: int| 0 <= j < head.len() && (#[trigger] head[j]).id@ == id;
            assert(list[j] == head[j]);
        }
        if exists|j: int| 0 <= j < list.len() && (#[trigger] list[j]).id@ == id {
            let j = choose|j: int| 0 <= j < list.len() && (#[trigger] list[j]).id@ == id;
            if j < head.len() {
                assert(head[j] == list[j]);
            }
        }
        if 0 <= i < head.len() && (forall|j: int|
            i < j < list.len() ==> (#[trigger] list[j]).id@ != list[i].id@) {
            assert forall|j: int| i < j < head.len() implies (#[trigger] head[j]).id@
                != head[i].id@ by {
                assert(head[j] == list[j]);
            }
            assert(head[i] == list[i]);
            assert(list[list.len() - 1].id@ != list[i].id@);
        }
    }
}

/// A new pool remembers the sessions that it is given: each that is within the
/// number that it keeps, as it was bound.
pub proof fn law_new_pool_remembers_its_sessions(list: Seq<Binding>, i: int)
    requires
        list.len() <= 10_000,
        forall|j: int, k: int|
            0 <= j < k < list.len() ==> (#[trigger] list[j]).cache_key@ != (
            #[trigger] list[k]).cache_key@,
        0 <= i < list.len(),
    ensures
        bound_all(list).len() == list.len(),
        distinct_keys(bound_all(list)),
        bound_all(list).contains(
            (list[i].cache_key@, list[i].account_id@, list[i].bound_at as int),
        ),
{
    lemma_bound_all(list);
    let e = (list[i].cache_key@, list[i].account_id@, list[i].bound_at as int);
    assert(bound_all(list)[list.len() - 1 - i] == e);
}

proof fn lemma_bound_all(list: Seq<Binding>)
    requires
        list.len() <= 10_000,
        forall|j: int, k: int|
            0 <= j < k < list.len() ==> (#[trigger] list[j]).cache_key@ != (
            #[trigger] list[k]).cache_key@,
    ensures
        bound_all(list).len() == list.len(),
        distinct_keys(bound_all(list)),
        forall|i: int|
            0 <= i < list.len() ==> #[trigger] bound_all(list)[list.len() - 1 - i] == (
                list[i].cache_key@,
                list[i].account_id@,
                list[i].bound_at as int,
            ),
        forall|i: int|
            0 <= i < list.len() ==> #[trigger] bound_all(list)[i] == (
                list[list.len() - 1 - i].cache_key@,
                list[list.len() - 1 - i].account_id@,
                list[list.len() - 1 - i].bound_at as int,
            ),
    decreases list.len(),
{
    if list.len() > 0 {
        let head = list.drop_last();
        assert forall|j: int, k: int| 0 <= j < k < head.len() implies (
        #[trigger] head[j]).cache_key@ != (#[trigger] head[k]).cache_key@ by {
            assert(head[j] == list[j] && head[k] == list[k]);
        }
        lemma_bound_all(head);
        let s = bound_all(head);
        let l = list.last();
        let e = (l.cache_key@, l.account_id@, l.bound_at as int);
        lemma_cache_stays_valid(s, DEFAULT_BINDING_CAP as nat, e);
        lemma_lookup(s, e.0);
        if let Some(x) = lookup(s, e.0) {
            let k = choose|k: int| 0 <= k < s.len() && s[k] == x;
            assert(head[head.len() - 1 - k].cache_key@ == e.0);
            assert(list[head.len() - 1 - k].cache_key@ != list[list.len() - 1].cache_key@);
        }
        assert(bound_all(list) =~= seq![e] + s);
        assert forall|i: int| 0 <= i < list.len() implies #[trigger] bound_all(list)[i] == (
            list[list.len() - 1 - i].cache_key@,
            list[list.len() - 1 - i].account_id@,
            list[list.len() - 1 - i].bound_at as int,
        ) by {
            if i > 0 {
                assert(bound_all(list)[i] == s[i - 1]);
                assert(head[head.len() - 1 - (i - 1)] == list[list.len() - 1 - i]);
            }
        }
    }
}

/// The sessions that are told are those that are remembered and whose account is
/// known, each with the backend of that account.
pub proof fn law_told_sessions_are_those_of_known_accounts(
    accounts: Map<Seq<char>, AccountState>,
    s: Seq<Entry>,
    b: BindingView,
)
    ensures
        listed(accounts, s).contains(b) <==> s.contains((b.cache_key, b.account_id, b.bound_at))
            && accounts.contains_key(b.account_id) && b.backend
            == accounts[b.account_id].account.backend,
        listed(accounts, s).len() <= s.len(),
    decreases s.len(),
{
    if s.len() > 0 {
        let head = s.drop_last();
        let e = s.last();
        law_told_sessions_are_those_of_known_accounts(accounts, head, b);
        let want = (b.cache_key, b.account_id, b.bound_at);
        let l = listed(accounts, s);
        let h = listed(accounts, head);
        assert(s.contains(want) <==> head.contains(want) || e == want) by {
            if s.contains(want) {
                let i = choose|i: int| 0 <= i < s.len() && s[i] == want;
                if i < head.len() {
                    assert(head[i] == want);
                }
            }
            if head.contains(want) {
                let i = choose|i: int| 0 <= i < head.len() && head[i] == want;
                assert(s[i] == want);
            }
            assert(s[s.len() - 1] == e);
        }
        if accounts.contains_key(e.1) {
            let x = BindingView {
                cache_key: e.0,
                account_id: e.1,
                backend: accounts[e.1].account.backend,
                bound_at: e.2,
            };
            assert(l == h.push(x));
            assert(l.contains(b) <==> h.contains(b) || b == x) by {
                if l.contains(b) {
                    let i = choose|i: int| 0 <= i < l.len() && l[i] == b;
                    if i < h.len() {
                        assert(h[i] == b);
                    }
                }
                if h.contains(b) {
                    let i = choose|i: int| 0 <= i < h.len() && h[i] == b;
                    assert(l[i] == b);
                }
                assert(l[h.len() as int] == x);
            }
        }
    }
}

/// Where accounts that were stored are no longer known, exactly the sessions that
/// are bound to one of them are forgotten.
pub proof fn law_sessions_of_unknown_accounts_are_forgotten(
    v: PoolView,
    list: Seq<Account>,
    e: Entry,
)
    ensures
        v.without_unknown(list).bindings.contains(e) <==> v.bindings.contains(e) && !exists|i: int|
            0 <= i < list.len() && (#[trigger] list[i]).id@ == e.1 && !v.accounts.contains_key(e.1),
        v.without_unknown(list).accounts == v.accounts,
    decreases list.len(),
{
    if list.len() > 0 {
        let head = list.drop_last();
        law_sessions_of_unknown_accounts_are_forgotten(v, head, e);
        let id = list.last().id@;
        let w = v.without_unknown(head);
        lemma_kept(w.bindings, not_to(id));
        assert(not_to(id)(e) == (e.1 != id));
        assert(list[list.len() - 1] == list.last());
        if exists|i: int|
            0 <= i < list.len() && (#[trigger] list[i]).id@ == e.1 && !v.accounts.contains_key(
                e.1,
            ) {
            let i = choose|i: int|
                0 <= i < list.len() && (#[trigger] list[i]).id@ == e.1 && !v.accounts.contains_key(
                    e.1,
                );
            if i < head.len() {
                assert(head[i] == list[i]);
            }
        }
        if exists|i: int|
            0 <= i < head.len() && (#[trigger] head[i]).id@ == e.1 && !v.accounts.contains_key(
                e.1,
            ) {
            let i = choose|i: int|
                0 <= i < head.len() && (#[trigger] head[i]).id@ == e.1 && !v.accounts.contains_key(
                    e.1,
                );
            assert(list[i] == head[i]);
        }
    }
}

/// The entries that a filter lets through keep their order.
pub proof fn law_forgetting_keeps_the_order(
    s: Seq<Entry>,
    keep: spec_fn(Entry) -> bool,
    a: Entry,
    b: Entry,
)
    requires
        keep(a),
        keep(b),
        a != b,
        exists|i: int, j: int| 0 <= i < j < s.len() && #[trigger] s[i] == a && #[trigger] s[j] == b,
    ensures
        exists|i: int, j: int|
            0 <= i < j < kept(s, keep).len() && #[trigger] kept(s, keep)[i] == a
                && #[trigger] kept(s, keep)[j] == b,
    decreases s.len(),
{
    let (i, j) = choose|i: int, j: int|
        0 <= i < j < s.len() && #[trigger] s[i] == a && #[trigger] s[j] == b;
    let head = s.drop_last();
    let h = kept(head, keep);
    if j < head.len() {
        assert(head[i] == a && head[j] == b);
        law_forgetting_keeps_the_order(head, keep, a, b);
        let (x, y) = choose|x: int, y: int|
            0 <= x < y < h.len() && #[trigger] h[x] == a && #[trigger] h[y] == b;
        assert(kept(s, keep)[x] == a && kept(s, keep)[y] == b);
    } else {
        lemma_kept(head, keep);
        assert(head[i] == a);
        assert(head.contains(a));
        assert(h.contains(a));
        let x = choose|x: int| 0 <= x < h.len() && h[x] == a;
        assert(kept(s, keep)[x] == a && kept(s, keep)[h.len() as int] == b);
    }
}

} // verus!
