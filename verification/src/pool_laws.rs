//! What holds of the pool across its operations.
use crate::models::{Account, AccountStatus, BackendId};
use crate::pool::{
    distinct_keys, fresh_at, is_fresh, kept, lapsed, lemma_cache_stays_valid, lemma_kept,
    lemma_lookup, lemma_without_key, not_to, not_under, Decision, PoolView, SelectError, BINDING_TTL_MS,
};
use crate::sticky::{lookup, put_in, touched, without_key, Entry};
use crate::text::{below, law_order_total, law_order_transitive};
use vstd::prelude::*;

verus! {

/// Of finitely many candidates one is ahead of all others.
proof fn lemma_least(v: PoolView, model: Seq<char>, only: Option<BackendId>, s: Set<Seq<char>>)
    requires
        s.finite(),
        s.len() > 0,
        forall|id: Seq<char>| #[trigger] s.contains(id) ==> v.candidate(model, only, id),
    ensures
        exists|id: Seq<char>| #[trigger]
            s.contains(id) && forall|other: Seq<char>| #[trigger]
                s.contains(other) && other != id ==> v.ahead(id, other),
    decreases s.len(),
{
    let x = s.choose();
    let t = s.remove(x);
    if t.len() == 0 {
        assert(s.contains(x));
        assert forall|other: Seq<char>| #[trigger] s.contains(other) && other != x implies v.ahead(
            x,
            other,
        ) by {
            assert(t.contains(other));
        }
    } else {
        assert forall|id: Seq<char>| #[trigger] t.contains(id) implies v.candidate(
            model,
            only,
            id,
        ) by {
            assert(s.contains(id));
        }
        lemma_least(v, model, only, t);
        let m = choose|id: Seq<char>| #[trigger]
            t.contains(id) && forall|other: Seq<char>| #[trigger]
                t.contains(other) && other != id ==> v.ahead(id, other);
        assert(s.contains(m) && s.contains(x));
        law_order_total(x, m);
        let best = if v.ahead(x, m) {
            x
        } else {
            m
        };
        assert forall|other: Seq<char>| #[trigger] s.contains(other) && other
            != best implies v.ahead(best, other) by {
            if other != x {
                assert(t.contains(other));
                if best == x && other != m {
                    assert(v.ahead(m, other));
                    if below(x, m) && below(m, other) {
                        law_order_transitive(x, m, other);
                    }
                }
            }
        }
        assert(s.contains(best));
    }
}

/// A candidate is picked exactly if there is one.
pub proof fn law_pick_exists(v: PoolView, model: Seq<char>, only: Option<BackendId>)
    requires
        v.wf(),
    ensures
        v.pick(model, only) is Some <==> exists|id: Seq<char>| #[trigger]
            v.candidate(model, only, id),
        v.pick(model, only) matches Some(id) ==> v.candidate(model, only, id),
{
    let s = v.accounts.dom().filter(|id: Seq<char>| v.candidate(model, only, id));
    if exists|id: Seq<char>| #[trigger] v.candidate(model, only, id) {
        let x = choose|id: Seq<char>| #[trigger] v.candidate(model, only, id);
        assert(s.contains(x));
        assert(s.finite());
        assert(s.len() > 0) by {
            if s.len() == 0 {
                assert(s =~= Set::empty());
            }
        }
        lemma_least(v, model, only, s);
        let m = choose|id: Seq<char>| #[trigger]
            s.contains(id) && forall|other: Seq<char>| #[trigger]
                s.contains(other) && other != id ==> v.ahead(id, other);
        assert forall|other: Seq<char>| #[trigger] v.candidate(model, only, other) && other
            != m implies v.ahead(m, other) by {
            assert(s.contains(other));
        }
        assert(v.is_pick(model, only, m));
    }
    if v.pick(model, only) is Some {
        let id = choose|id: Seq<char>| v.is_pick(model, only, id);
        assert(v.is_pick(model, only, id));
    }
}

/// The account that is picked has no more requests in flight than any other
/// candidate.
pub proof fn law_pick_is_least_loaded(
    v: PoolView,
    model: Seq<char>,
    only: Option<BackendId>,
    other: Seq<char>,
)
    requires
        v.wf(),
        v.candidate(model, only, other),
    ensures
        v.pick(model, only) matches Some(id) && v.accounts[id].inflight
            <= v.accounts[other].inflight,
{
    law_pick_exists(v, model, only);
    let id = choose|id: Seq<char>| v.is_pick(model, only, id);
    assert(v.is_pick(model, only, id));
}

/// The earliest reset of finitely many cooling accounts exists.
proof fn lemma_earliest(v: PoolView, model: Seq<char>, s: Set<Seq<char>>)
    requires
        s.finite(),
        s.len() > 0,
    ensures
        exists|id: Seq<char>| #[trigger]
            s.contains(id) && forall|other: Seq<char>| #[trigger]
                s.contains(other) ==> v.accounts[id].account.reset_at
                    <= v.accounts[other].account.reset_at,
    decreases s.len(),
{
    let x = s.choose();
    let t = s.remove(x);
    if t.len() == 0 {
        assert(s.contains(x));
        assert forall|other: Seq<char>| #[trigger] s.contains(other) implies other == x by {
            if other != x {
                assert(t.contains(other));
            }
        }
    } else {
        lemma_earliest(v, model, t);
        let m = choose|id: Seq<char>| #[trigger]
            t.contains(id) && forall|other: Seq<char>| #[trigger]
                t.contains(other) ==> v.accounts[id].account.reset_at
                    <= v.accounts[other].account.reset_at;
        let best = if v.accounts[x].account.reset_at <= v.accounts[m].account.reset_at {
            x
        } else {
            m
        };
        assert forall|other: Seq<char>| #[trigger]
            s.contains(other) implies v.accounts[best].account.reset_at
            <= v.accounts[other].account.reset_at by {
            if other != x {
                assert(t.contains(other));
            }
        }
        assert(s.contains(best));
    }
}

proof fn lemma_earliest_exists(v: PoolView, model: Seq<char>)
    requires
        v.wf(),
    ensures
        v.earliest_reset(model) is Some <==> exists|id: Seq<char>| #[trigger]
            v.cooling(model, id),
        v.earliest_reset(model) matches Some(at) ==> v.is_earliest(model, at),
{
    let s = v.accounts.dom().filter(|id: Seq<char>| v.cooling(model, id));
    if exists|id: Seq<char>| #[trigger] v.cooling(model, id) {
        let x = choose|id: Seq<char>| #[trigger] v.cooling(model, id);
        assert(s.contains(x));
        assert(s.len() > 0) by {
            if s.len() == 0 {
                assert(s =~= Set::empty());
            }
        }
        lemma_earliest(v, model, s);
        let m = choose|id: Seq<char>| #[trigger]
            s.contains(id) && forall|other: Seq<char>| #[trigger]
                s.contains(other) ==> v.accounts[id].account.reset_at
                    <= v.accounts[other].account.reset_at;
        let at = v.accounts[m].account.reset_at;
        assert(v.cooling(model, m));
        assert forall|id: Seq<char>| #[trigger] v.cooling(model, id) implies at
            <= v.accounts[id].account.reset_at by {
            assert(s.contains(id));
        }
        assert(v.is_earliest(model, at));
    }
    if v.earliest_reset(model) is Some {
        let at = choose|at: i64| v.is_earliest(model, at);
        assert(v.is_earliest(model, at));
    }
}

/// Taking the time into account keeps a valid pool valid.
pub proof fn law_sweep_keeps_validity(v: PoolView, now: int)
    requires
        v.wf(),
    ensures
        v.swept(now).wf(),
{
    lemma_kept(v.bindings, fresh_at(now));
    assert(v.swept(now).accounts.dom() =~= v.accounts.dom());
}

/// A sweep returns exactly the accounts whose cooling is over to rotation; it
/// changes no other account. It drops exactly the sessions that are too old.
pub proof fn law_sweep_readmits_expired_cooling(v: PoolView, now: int)
    requires
        v.wf(),
    ensures
        forall|id: Seq<char>| #[trigger]
            v.readmitted(id, now) ==> v.swept(now).accounts[id].account.is_healthy(),
        forall|id: Seq<char>| #[trigger]
            v.accounts.contains_key(id) && !v.readmitted(id, now) ==> v.swept(now).accounts[id]
                == v.accounts[id],
        v.swept(now).accounts.dom() == v.accounts.dom(),
        forall|e: Entry| #[trigger]
            v.swept(now).bindings.contains(e) <==> v.bindings.contains(e) && is_fresh(e, now),
{
    lemma_kept(v.bindings, fresh_at(now));
    assert(v.swept(now).accounts.dom() =~= v.accounts.dom());
    assert forall|e: Entry| #[trigger] v.swept(now).bindings.contains(e) <==> v.bindings.contains(e)
        && is_fresh(e, now) by {
        assert(fresh_at(now)(e) == is_fresh(e, now));
        if v.bindings.contains(e) && is_fresh(e, now) {
            assert(kept(v.bindings, fresh_at(now)).contains(e));
        }
    }
}

/// Once the lifetime of a session has passed for all of them, none is left.
pub proof fn law_all_sessions_expire(v: PoolView, now: int)
    requires
        v.wf(),
        forall|e: Entry| #[trigger] v.bindings.contains(e) ==> e.2 + BINDING_TTL_MS < now,
    ensures
        v.swept(now).bindings.len() == 0,
{
    law_sweep_readmits_expired_cooling(v, now);
    if v.swept(now).bindings.len() > 0 {
        let e = v.swept(now).bindings[0];
        assert(v.swept(now).bindings.contains(e));
        assert(v.bindings.contains(e));
    }
}

proof fn lemma_touched(s: Seq<Entry>, cap: nat, key: Seq<char>)
    requires
        distinct_keys(s),
        s.len() <= cap,
        cap > 0,
    ensures
        distinct_keys(touched(s, key)),
        touched(s, key).len() <= cap,
        lookup(touched(s, key), key) == lookup(s, key),
{
    lemma_cache_stays_valid(s, cap, (key, key, 0));
    lemma_lookup(s, key);
    lemma_lookup(touched(s, key), key);
    if let Some(e) = lookup(s, key) {
        assert(touched(s, key)[0] == e);
        assert(touched(s, key).contains(e));
    }
}

proof fn lemma_put(s: Seq<Entry>, cap: nat, e: Entry)
    requires
        distinct_keys(s),
        s.len() <= cap,
        cap > 0,
    ensures
        lookup(put_in(s, cap, e), e.0) == Some(e),
{
    lemma_cache_stays_valid(s, cap, e);
    assert(put_in(s, cap, e)[0] == e);
    assert(put_in(s, cap, e).contains(e));
    lemma_lookup(put_in(s, cap, e), e.0);
}

/// The pool that a selection chooses from: the time is taken into account and a
/// bound session counts as used.
spec fn basis(v: PoolView, now: int, sticky: Option<Seq<char>>) -> PoolView {
    let w = v.swept(now);
    match sticky {
        Some(key) => PoolView { bindings: touched(w.bindings, key), ..w },
        None => w,
    }
}

proof fn lemma_basis(v: PoolView, now: int, sticky: Option<Seq<char>>)
    requires
        v.wf(),
    ensures
        basis(v, now, sticky).wf(),
        basis(v, now, sticky).accounts == v.swept(now).accounts,
        sticky matches Some(key) ==> lookup(basis(v, now, sticky).bindings, key) == lookup(
            v.swept(now).bindings,
            key,
        ),
{
    law_sweep_keeps_validity(v, now);
    if let Some(key) = sticky {
        lemma_touched(v.swept(now).bindings, v.cap, key);
    }
}

/// The same candidates before and after a session is used.
proof fn lemma_basis_candidates(v: PoolView, now: int, sticky: Option<Seq<char>>)
    ensures
        forall|m: Seq<char>, o: Option<BackendId>, id: Seq<char>| #[trigger]
            basis(v, now, sticky).candidate(m, o, id) == v.swept(now).candidate(m, o, id),
        forall|m: Seq<char>, id: Seq<char>| #[trigger]
            basis(v, now, sticky).cooling(m, id) == v.swept(now).cooling(m, id),
{
}

/// A selection changes no account beyond taking the time into account, and it
/// keeps a valid pool valid; in particular the number of remembered sessions
/// stays within its bound.
pub proof fn law_selection_keeps_accounts(
    v: PoolView,
    now: int,
    sticky: Option<Seq<char>>,
    model: Seq<char>,
)
    requires
        v.wf(),
    ensures
        v.selected(now, sticky, model).1.accounts == v.swept(now).accounts,
        v.selected(now, sticky, model).1.wf(),
{
    let w = basis(v, now, sticky);
    lemma_basis(v, now, sticky);
    law_sweep_keeps_validity(v, now);
    if let Some(key) = sticky {
        assert forall|id: Seq<char>| w.bound(key, id, now).wf() by {
            lemma_cache_stays_valid(w.bindings, w.cap, (key, id, now));
        }
        assert forall|id: Seq<char>| v.swept(now).bound(key, id, now).wf() by {
            lemma_cache_stays_valid(v.swept(now).bindings, v.cap, (key, id, now));
        }
    }
}

/// The account that a selection gives is known, healthy, eligible for the model,
/// and of the backend that the selection names.
pub proof fn law_selection_is_healthy(
    v: PoolView,
    now: int,
    sticky: Option<Seq<char>>,
    model: Seq<char>,
)
    requires
        v.wf(),
    ensures
        v.selected(now, sticky, model).0 matches Ok(s) ==> {
            let after = v.selected(now, sticky, model).1;
            &&& after.candidate(model, None, s.account_id)
            &&& after.accounts[s.account_id].account.is_healthy()
            &&& s.backend == after.accounts[s.account_id].account.backend
            &&& v.eligible(s.backend, model)
        },
{
    let w = basis(v, now, sticky);
    lemma_basis(v, now, sticky);
    law_sweep_keeps_validity(v, now);
    law_selection_keeps_accounts(v, now, sticky, model);
    lemma_basis_candidates(v, now, sticky);
    law_pick_exists(w, model, None);
    law_pick_exists(w, model, Some(BackendId::Codex));
    law_pick_exists(w, model, Some(BackendId::Copilot));
    law_pick_exists(v.swept(now), model, None);
}

/// A selection fails exactly if no known account is healthy and eligible. Then
/// it names the earliest reset of the eligible accounts that are cooling, or
/// says that there are none.
pub proof fn law_saturation_reports_earliest_reset(
    v: PoolView,
    now: int,
    sticky: Option<Seq<char>>,
    model: Seq<char>,
)
    requires
        v.wf(),
    ensures
        v.selected(now, sticky, model).0 is Err <==> !exists|id: Seq<char>| #[trigger]
            v.swept(now).candidate(model, None, id),
        v.selected(now, sticky, model).0 matches Err(SelectError::Saturated { until_ms })
            ==> v.swept(now).is_earliest(model, until_ms),
        v.selected(now, sticky, model).0 matches Err(SelectError::NoAccounts) ==> !exists|
            id: Seq<char>,
        | #[trigger]
            v.swept(now).cooling(model, id),
{
    let w = basis(v, now, sticky);
    let x = v.swept(now);
    lemma_basis(v, now, sticky);
    law_sweep_keeps_validity(v, now);
    lemma_basis_candidates(v, now, sticky);
    law_pick_exists(w, model, None);
    law_pick_exists(x, model, None);
    lemma_earliest_exists(w, model);
    lemma_earliest_exists(x, model);
    assert forall|o: BackendId| #[trigger] w.pick(model, Some(o)) is Some implies exists|
        id: Seq<char>,
    | #[trigger]
        x.candidate(model, None, id) by {
        law_pick_exists(w, model, Some(o));
        let id = w.pick(model, Some(o))->0;
        assert(w.candidate(model, Some(o), id));
        assert(x.candidate(model, None, id));
    }
    assert forall|at: i64| #[trigger] w.is_earliest(model, at) implies x.is_earliest(
        model,
        at,
    ) by {
        let id = choose|id: Seq<char>| #[trigger]
            w.cooling(model, id) && w.accounts[id].account.reset_at == at;
        assert(x.cooling(model, id));
        assert forall|id: Seq<char>| #[trigger] x.cooling(model, id) implies at
            <= x.accounts[id].account.reset_at by {
            assert(w.cooling(model, id));
        }
    }
    if exists|id: Seq<char>| #[trigger] x.candidate(model, None, id) {
        let id = choose|id: Seq<char>| #[trigger] x.candidate(model, None, id);
        assert(w.candidate(model, None, id));
    }
    if exists|id: Seq<char>| #[trigger] x.cooling(model, id) {
        let id = choose|id: Seq<char>| #[trigger] x.cooling(model, id);
        assert(w.cooling(model, id));
    }
}

/// A request without a session key binds nothing.
pub proof fn law_no_key_no_binding(v: PoolView, now: int, model: Seq<char>)
    ensures
        v.selected(now, None, model).1 == v.swept(now),
        v.selected(now, None, model).0 matches Ok(s) ==> s.decision == Decision::Unsticky,
{
}

/// A session that is bound to a healthy account that may serve the model goes to
/// that account, and stays bound as it was.
pub proof fn law_bound_session_stays(v: PoolView, now: int, key: Seq<char>, model: Seq<char>, e: Entry)
    requires
        v.wf(),
        lookup(v.bindings, key) == Some(e),
        is_fresh(e, now),
        v.swept(now).candidate(model, None, e.1),
    ensures
        v.selected(now, Some(key), model).0 matches Ok(s) && s.account_id == e.1 && s.decision
            == Decision::StickyHit,
        lookup(v.selected(now, Some(key), model).1.bindings, key) == Some(e),
{
    let w = basis(v, now, Some(key));
    lemma_basis(v, now, Some(key));
    law_sweep_keeps_validity(v, now);
    lemma_lookup(v.bindings, key);
    law_sweep_readmits_expired_cooling(v, now);
    assert(v.swept(now).bindings.contains(e));
    lemma_lookup(v.swept(now).bindings, key);
    lemma_basis_candidates(v, now, Some(key));
    assert(w.candidate(model, None, e.1));
}

/// After a selection with a session key, the session is bound to the account
/// that was chosen; a new binding counts from the time of the selection.
pub proof fn law_selection_binds_session(v: PoolView, now: int, key: Seq<char>, model: Seq<char>)
    requires
        v.wf(),
    ensures
        v.selected(now, Some(key), model).0 matches Ok(s) ==> {
            let after = v.selected(now, Some(key), model).1;
            &&& lookup(after.bindings, key) matches Some(e) && e.1 == s.account_id && is_fresh(
                e,
                now,
            ) && (s.decision != Decision::StickyHit ==> e.2 == now)
            &&& s.decision != Decision::Unsticky
        },
{
    let w = basis(v, now, Some(key));
    let x = v.swept(now);
    lemma_basis(v, now, Some(key));
    law_sweep_keeps_validity(v, now);
    law_sweep_readmits_expired_cooling(v, now);
    lemma_lookup(x.bindings, key);
    assert forall|id: Seq<char>| lookup((#[trigger] w.bound(key, id, now)).bindings, key) == Some(
        (key, id, now),
    ) by {
        lemma_put(w.bindings, w.cap, (key, id, now));
    }
    assert forall|id: Seq<char>| lookup((#[trigger] x.bound(key, id, now)).bindings, key) == Some(
        (key, id, now),
    ) by {
        lemma_put(x.bindings, x.cap, (key, id, now));
    }
}

/// While its account stays healthy and eligible and its lifetime has not passed,
/// a session keeps going to the same account.
pub proof fn law_stickiness_is_stable(
    v: PoolView,
    now: int,
    key: Seq<char>,
    model: Seq<char>,
    later: int,
)
    requires
        v.wf(),
        now <= later,
        v.selected(now, Some(key), model).0 is Ok,
        lookup(v.selected(now, Some(key), model).1.bindings, key) matches Some(e) ==> is_fresh(
            e,
            later,
        ),
    ensures
        ({
            let (first, w) = v.selected(now, Some(key), model);
            let (second, _) = w.selected(later, Some(key), model);
            &&& second matches Ok(s) && s.account_id == first->Ok_0.account_id && s.decision
                == Decision::StickyHit
        }),
{
    let (first, w) = v.selected(now, Some(key), model);
    law_selection_binds_session(v, now, key, model);
    law_selection_is_healthy(v, now, Some(key), model);
    law_selection_keeps_accounts(v, now, Some(key), model);
    let e = lookup(w.bindings, key)->0;
    let id = first->Ok_0.account_id;
    assert(w.swept(later).accounts[id] == w.accounts[id]);
    assert(w.swept(later).candidate(model, None, id));
    law_bound_session_stays(w, later, key, model, e);
}

/// Two lists have the same entries under a key.
spec fn same_under(a: Seq<Entry>, b: Seq<Entry>, key: Seq<char>) -> bool {
    forall|e: Entry| #![trigger a.contains(e)] #![trigger b.contains(e)]
        e.0 == key ==> (a.contains(e) <==> b.contains(e))
}

proof fn lemma_same_lookup(a: Seq<Entry>, b: Seq<Entry>, key: Seq<char>)
    requires
        distinct_keys(a),
        distinct_keys(b),
        same_under(a, b, key),
    ensures
        lookup(a, key) == lookup(b, key),
{
    lemma_lookup(a, key);
    lemma_lookup(b, key);
    if let Some(e) = lookup(a, key) {
        assert(b.contains(e));
    }
    if let Some(e) = lookup(b, key) {
        assert(a.contains(e));
    }
}

/// An entry in front and the others behind it.
proof fn lemma_front(e: Entry, s: Seq<Entry>, x: Entry)
    ensures
        (seq![e] + s).contains(x) <==> x == e || s.contains(x),
{
    let p = seq![e] + s;
    if p.contains(x) {
        let i = choose|i: int| 0 <= i < p.len() && p[i] == x;
        if i > 0 {
            assert(s[i - 1] == x);
        }
    }
    if x == e {
        assert(p[0] == x);
    }
    if s.contains(x) {
        let i = choose|i: int| 0 <= i < s.len() && s[i] == x;
        assert(p[i + 1] == x);
    }
}

/// Using or putting in an entry leaves those under other keys, while there is
/// room.
proof fn lemma_other_keys_stay(s: Seq<Entry>, cap: nat, e: Entry, key: Seq<char>)
    requires
        distinct_keys(s),
        s.len() <= cap,
        cap > 0,
        e.0 != key,
        lookup(s, e.0) is Some || s.len() < cap,
    ensures
        lookup(put_in(s, cap, e), key) == lookup(s, key),
        lookup(touched(s, e.0), key) == lookup(s, key),
{
    lemma_cache_stays_valid(s, cap, e);
    lemma_without_key(s, e.0);
    lemma_kept(s, not_under(e.0));
    lemma_lookup(s, e.0);
    let w = without_key(s, e.0);
    assert forall|x: Entry| x.0 == key implies (#[trigger] w.contains(x) <==> s.contains(x)) by {
        assert(not_under(e.0)(x));
    }
    let p = put_in(s, cap, e);
    let t = touched(s, e.0);
    assert forall|x: Entry| x.0 == key implies (p.contains(x) <==> s.contains(x)) && (t.contains(x)
        <==> s.contains(x)) by {
        lemma_front(e, w, x);
        lemma_front(e, s, x);
        if let Some(y) = lookup(s, e.0) {
            lemma_front(y, w, x);
        }
    }
    assert(same_under(p, s, key));
    assert(same_under(t, s, key));
    lemma_same_lookup(p, s, key);
    lemma_same_lookup(t, s, key);
}

/// A request of another session, or of none, leaves a session bound as it was,
/// while the pool has room for one more session.
pub proof fn law_sessions_do_not_disturb_each_other(
    v: PoolView,
    now: int,
    key: Seq<char>,
    other: Option<Seq<char>>,
    model: Seq<char>,
)
    requires
        v.wf(),
        other != Some(key),
        v.bindings.len() < v.cap,
    ensures
        lookup(v.selected(now, other, model).1.bindings, key) == lookup(
            v.swept(now).bindings,
            key,
        ),
{
    let w = basis(v, now, other);
    let x = v.swept(now);
    lemma_basis(v, now, other);
    law_sweep_keeps_validity(v, now);
    lemma_kept(v.bindings, fresh_at(now));
    if let Some(k) = other {
        lemma_other_keys_stay(x.bindings, x.cap, (k, k, 0), key);
        lemma_lookup(x.bindings, k);
        assert forall|id: Seq<char>| lookup((#[trigger] x.bound(k, id, now)).bindings, key)
            == lookup(x.bindings, key) by {
            lemma_other_keys_stay(x.bindings, x.cap, (k, id, now), key);
        }
        assert forall|id: Seq<char>| lookup((#[trigger] w.bound(k, id, now)).bindings, key)
            == lookup(x.bindings, key) by {
            lemma_cache_stays_valid(x.bindings, x.cap, (k, k, 0));
            lemma_other_keys_stay(w.bindings, w.cap, (k, id, now), key);
        }
    }
}

/// When the account of a bound session cannot serve, another account of its
/// backend is preferred.
pub proof fn law_rebinding_prefers_same_backend(
    v: PoolView,
    now: int,
    key: Seq<char>,
    model: Seq<char>,
    e: Entry,
    other: Seq<char>,
)
    requires
        v.wf(),
        lookup(v.bindings, key) == Some(e),
        is_fresh(e, now),
        v.accounts.contains_key(e.1),
        !v.swept(now).candidate(model, None, e.1),
        v.swept(now).candidate(model, Some(v.accounts[e.1].account.backend), other),
    ensures
        v.selected(now, Some(key), model).0 matches Ok(s) && s.backend
            == v.accounts[e.1].account.backend && s.decision == Decision::StickyRebind,
{
    let w = basis(v, now, Some(key));
    let b = v.accounts[e.1].account.backend;
    lemma_basis(v, now, Some(key));
    law_sweep_keeps_validity(v, now);
    lemma_lookup(v.bindings, key);
    law_sweep_readmits_expired_cooling(v, now);
    assert(v.swept(now).bindings.contains(e));
    lemma_lookup(v.swept(now).bindings, key);
    lemma_basis_candidates(v, now, Some(key));
    assert(w.candidate(model, Some(b), other));
    assert(!w.candidate(model, None, e.1));
    assert(w.accounts[e.1].account.backend == b);
    law_pick_exists(w, model, Some(b));
}

/// A model that no catalog lists goes to Codex.
pub proof fn law_unknown_model_goes_to_codex(
    v: PoolView,
    now: int,
    sticky: Option<Seq<char>>,
    model: Seq<char>,
)
    requires
        v.wf(),
        !v.serves(BackendId::Codex, model),
        !v.serves(BackendId::Copilot, model),
    ensures
        v.selected(now, sticky, model).0 matches Ok(s) ==> s.backend == BackendId::Codex,
{
    law_selection_is_healthy(v, now, sticky, model);
}

/// A model that some catalog lists goes only to a backend that lists it.
pub proof fn law_listed_model_goes_where_it_is_served(
    v: PoolView,
    now: int,
    sticky: Option<Seq<char>>,
    model: Seq<char>,
)
    requires
        v.wf(),
        v.serves(BackendId::Codex, model) || v.serves(BackendId::Copilot, model),
    ensures
        v.selected(now, sticky, model).0 matches Ok(s) ==> v.serves(s.backend, model),
{
    law_selection_is_healthy(v, now, sticky, model);
}

/// An account that was reported exhausted until a time is healthy again once
/// that time has come.
pub proof fn law_cooling_expiry_restores_health(v: PoolView, id: Seq<char>, until: i64, now: int)
    requires
        v.wf(),
        v.accounts.contains_key(id),
        until <= now,
    ensures
        v.with_status(id, AccountStatus::Cooling, until).swept(
            now,
        ).accounts[id].account.is_healthy(),
{
}

/// A release undoes an acquire, and one without an acquire leaves zero at zero.
pub proof fn law_release_undoes_acquire(v: PoolView, id: Seq<char>)
    requires
        v.accounts.contains_key(id) ==> v.accounts[id].inflight < u32::MAX,
    ensures
        v.with_inflight(id, |n: u32| n + 1).with_inflight(id, |n: u32| n - 1) == v,
        v.accounts.contains_key(id) && v.accounts[id].inflight == 0 ==> v.with_inflight(
            id,
            |n: u32| n - 1,
        ) == v,
{
    let w = v.with_inflight(id, |n: u32| n + 1).with_inflight(id, |n: u32| n - 1);
    assert(w.accounts =~= v.accounts);
    if v.accounts.contains_key(id) && v.accounts[id].inflight == 0 {
        assert(v.with_inflight(id, |n: u32| n - 1).accounts =~= v.accounts);
    }
}

/// After an attempt that changed the health of no account, a request is given the
/// same account again, as long as no cooling has ended and its session has not
/// run out by then.
pub proof fn law_selection_repeats(
    v: PoolView,
    now: int,
    sticky: Option<Seq<char>>,
    model: Seq<char>,
    later: int,
)
    requires
        v.wf(),
        now <= later,
        ({
            let (first, w) = v.selected(now, sticky, model);
            &&& first is Ok
            &&& w.accounts[first->Ok_0.account_id].inflight < u32::MAX
            &&& forall|id: Seq<char>| #[trigger]
                w.accounts.contains_key(id) ==> !lapsed(w.accounts[id].account, later)
            &&& sticky matches Some(key) ==> (lookup(w.bindings, key) matches Some(e) ==> is_fresh(
                e,
                later,
            ))
        }),
    ensures
        ({
            let (first, w) = v.selected(now, sticky, model);
            let id = first->Ok_0.account_id;
            let ended = w.with_inflight(id, |n: u32| n + 1).with_inflight(id, |n: u32| n - 1);
            ended.selected(later, sticky, model).0 matches Ok(again) && again.account_id == id
                && again.backend == first->Ok_0.backend
        }),
{
    let (first, w) = v.selected(now, sticky, model);
    let id = first->Ok_0.account_id;
    law_selection_is_healthy(v, now, sticky, model);
    law_release_undoes_acquire(w, id);
    match sticky {
        Some(key) => {
            law_stickiness_is_stable(v, now, key, model, later);
            law_selection_keeps_accounts(v, now, sticky, model);
            law_selection_keeps_accounts(w, later, sticky, model);
            law_selection_is_healthy(w, later, sticky, model);
        },
        None => {
            let x = w.swept(later);
            assert(x.accounts =~= w.accounts);
            assert(w.is_pick(model, None, id));
            assert forall|other: Seq<char>| #[trigger]
                x.candidate(model, None, other) && other != id implies x.ahead(id, other) by {
                assert(w.candidate(model, None, other));
            }
            assert(x.candidate(model, None, id));
            assert(x.is_pick(model, None, id));
            let again = choose|id: Seq<char>| x.is_pick(model, None, id);
            assert(x.is_pick(model, None, again));
            if again != id {
                assert(x.ahead(id, again) && x.ahead(again, id));
                law_order_total(id, again);
            }
        },
    }
}

/// A removed account is gone, and no session is bound to it.
pub proof fn law_removed_account_is_gone(v: PoolView, id: Seq<char>)
    ensures
        !v.without_account(id).accounts.contains_key(id),
        forall|e: Entry| #[trigger] v.without_account(id).bindings.contains(e) ==> e.1 != id,
        forall|e: Entry| #[trigger]
            v.bindings.contains(e) && e.1 != id ==> v.without_account(id).bindings.contains(e),
{
    lemma_kept(v.bindings, not_to(id));
    assert forall|e: Entry| #[trigger] v.without_account(id).bindings.contains(e) implies e.1
        != id by {
        assert(not_to(id)(e));
    }
    assert forall|e: Entry| #[trigger] v.bindings.contains(e) && e.1
        != id implies v.without_account(id).bindings.contains(e) by {
        assert(not_to(id)(e));
    }
}

/// Taking stored accounts in keeps the requests in flight.
pub proof fn law_sync_keeps_inflight(v: PoolView, listed: Seq<Account>, now: int, id: Seq<char>)
    requires
        v.accounts.contains_key(id),
    ensures
        v.synced_all(listed, now).accounts.contains_key(id),
        v.synced_all(listed, now).accounts[id].inflight == v.accounts[id].inflight,
        v.synced_all(listed, now).bindings == v.bindings,
    decreases listed.len(),
{
    if listed.len() > 0 {
        law_sync_keeps_inflight(v, listed.drop_last(), now, id);
    }
}

} // verus!
