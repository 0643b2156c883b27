//! What a selection gives, said of the accounts and sessions of the pool as they
//! are before it.
use crate::models::{Account, AccountStatus, BackendId};
use crate::pool::{
    lemma_cache_stays_valid, lemma_kept, lemma_lookup, Decision, PoolView, SelectError,
};
use crate::pool_laws::{
    law_bound_session_stays, law_pick_exists, law_selection_binds_session,
    law_selection_keeps_accounts, law_sweep_keeps_validity, law_sweep_readmits_expired_cooling,
};
use crate::sticky::{lookup, touched, without_key, Entry};
use crate::text::below;
use vstd::prelude::*;

verus! {

/// The account can be used at a time: it is healthy, or its cooling is over.
pub open spec fn usable_at(a: Account, now: int) -> bool {
    ||| a.status == AccountStatus::Healthy
    ||| a.status == AccountStatus::Cooling && a.reset_at <= now
}

/// Codex takes what its catalog lists and what no catalog lists; Copilot takes
/// what its catalog lists.
pub open spec fn takes(v: PoolView, b: BackendId, model: Seq<char>) -> bool {
    match b {
        BackendId::Codex => v.codex_models.contains(model) || !v.copilot_models.contains(model),
        BackendId::Copilot => v.copilot_models.contains(model),
    }
}

/// The account can serve the model at a time.
pub open spec fn ready(v: PoolView, now: int, model: Seq<char>, id: Seq<char>) -> bool {
    &&& v.accounts.contains_key(id)
    &&& usable_at(v.accounts[id].account, now)
    &&& takes(v, v.accounts[id].account.backend, model)
}

/// The account is still cooling at a time, and would serve the model.
pub open spec fn waiting(v: PoolView, now: int, model: Seq<char>, id: Seq<char>) -> bool {
    &&& v.accounts.contains_key(id)
    &&& v.accounts[id].account.status == AccountStatus::Cooling
    &&& v.accounts[id].account.reset_at > now
    &&& takes(v, v.accounts[id].account.backend, model)
}

/// The session was bound in this way within the last day.
pub open spec fn bound_as(v: PoolView, now: int, key: Seq<char>, e: Entry) -> bool {
    v.bindings.contains(e) && e.0 == key && now - e.2 <= 86_400_000
}

/// The first account has fewer requests in flight; or as many, and its id is not
/// the later one.
pub open spec fn no_busier(v: PoolView, a: Seq<char>, b: Seq<char>) -> bool {
    ||| v.accounts[a].inflight < v.accounts[b].inflight
    ||| v.accounts[a].inflight == v.accounts[b].inflight && (a == b || below(a, b))
}

proof fn lemma_ready(v: PoolView, now: int, model: Seq<char>, id: Seq<char>)
    ensures
        v.swept(now).candidate(model, None, id) <==> ready(v, now, model, id),
        forall|b: BackendId| #[trigger]
            v.swept(now).candidate(model, Some(b), id) <==> ready(v, now, model, id)
                && v.accounts[id].account.backend == b,
        v.swept(now).cooling(model, id) <==> waiting(v, now, model, id),
        v.accounts.contains_key(id) ==> v.swept(now).accounts[id].inflight
            == v.accounts[id].inflight && v.swept(now).accounts[id].account.backend
            == v.accounts[id].account.backend,
        v.accounts.contains_key(id) <==> v.swept(now).accounts.contains_key(id),
{
}

/// The pool that is chosen from: as `v` at the time, with the sessions in any
/// order.
spec fn as_at(w: PoolView, v: PoolView, now: int) -> bool {
    &&& w.wf()
    &&& w.accounts == v.swept(now).accounts
    &&& w.codex_models == v.codex_models
    &&& w.copilot_models == v.copilot_models
}

proof fn lemma_pick(w: PoolView, v: PoolView, now: int, model: Seq<char>, only: Option<BackendId>)
    requires
        as_at(w, v, now),
    ensures
        match w.pick(model, only) {
            Some(id) => {
                &&& ready(v, now, model, id)
                &&& w.accounts[id].account.backend == v.accounts[id].account.backend
                &&& only matches Some(b) ==> v.accounts[id].account.backend == b
                &&& forall|x: Seq<char>| #[trigger]
                    ready(v, now, model, x) && (only matches Some(b)
                        ==> v.accounts[x].account.backend == b) ==> no_busier(v, id, x)
            },
            None => forall|x: Seq<char>| #[trigger]
                ready(v, now, model, x) ==> (only matches Some(b)
                    && v.accounts[x].account.backend != b),
        },
{
    law_pick_exists(w, model, only);
    assert forall|x: Seq<char>| #[trigger] w.candidate(model, only, x) <==> ready(v, now, model, x)
        && (only matches Some(b) ==> v.accounts[x].account.backend == b) by {
        lemma_ready(v, now, model, x);
        assert(w.candidate(model, only, x) == v.swept(now).candidate(model, only, x));
    }
    if let Some(id) = w.pick(model, only) {
        let k = choose|id: Seq<char>| w.is_pick(model, only, id);
        assert(w.is_pick(model, only, k));
        lemma_ready(v, now, model, id);
        assert forall|x: Seq<char>| #[trigger]
            ready(v, now, model, x) && (only matches Some(b) ==> v.accounts[x].account.backend
                == b) implies no_busier(v, id, x) by {
            lemma_ready(v, now, model, x);
            assert(w.candidate(model, only, x));
            if x != id {
                assert(w.ahead(id, x));
            }
        }
    } else {
        assert forall|x: Seq<char>| #[trigger] ready(v, now, model, x) implies (only matches Some(b)
            && v.accounts[x].account.backend != b) by {
            assert(!w.candidate(model, only, x));
        }
    }
}

proof fn lemma_bases(v: PoolView, now: int, key: Seq<char>)
    requires
        v.wf(),
    ensures
        as_at(v.swept(now), v, now),
        as_at(
            (PoolView { bindings: touched(v.swept(now).bindings, key), ..v.swept(now) }),
            v,
            now,
        ),
{
    law_sweep_keeps_validity(v, now);
    lemma_cache_stays_valid(v.swept(now).bindings, v.cap, (key, key, 0));
}

/// A binding that is not too old is the one that a session has.
proof fn lemma_bound(v: PoolView, now: int, key: Seq<char>)
    requires
        v.wf(),
    ensures
        forall|e: Entry| #[trigger]
            bound_as(v, now, key, e) ==> lookup(v.swept(now).bindings, key) == Some(e) && lookup(
                v.bindings,
                key,
            ) == Some(e),
        lookup(v.swept(now).bindings, key) matches Some(e) ==> bound_as(v, now, key, e),
{
    law_sweep_readmits_expired_cooling(v, now);
    law_sweep_keeps_validity(v, now);
    lemma_lookup(v.bindings, key);
    lemma_lookup(v.swept(now).bindings, key);
    assert forall|e: Entry| #[trigger] bound_as(v, now, key, e) implies lookup(
        v.swept(now).bindings,
        key,
    ) == Some(e) && lookup(v.bindings, key) == Some(e) by {
        assert(v.swept(now).bindings.contains(e));
    }
}

/// A selection gives an account exactly if one can serve the model: it is known,
/// healthy or done with cooling, and its backend takes the model.
pub proof fn law_selection_gives_a_ready_account(
    v: PoolView,
    now: int,
    sticky: Option<Seq<char>>,
    model: Seq<char>,
)
    requires
        v.wf(),
    ensures
        v.selected(now, sticky, model).0 is Ok <==> exists|id: Seq<char>| #[trigger]
            ready(v, now, model, id),
        v.selected(now, sticky, model).0 matches Ok(s) ==> ready(v, now, model, s.account_id)
            && s.backend == v.accounts[s.account_id].account.backend,
{
    let key = match sticky {
        Some(k) => k,
        None => Seq::empty(),
    };
    lemma_bases(v, now, key);
    let x = v.swept(now);
    let w = PoolView { bindings: touched(x.bindings, key), ..x };
    lemma_pick(x, v, now, model, None);
    lemma_pick(w, v, now, model, None);
    lemma_pick(w, v, now, model, Some(BackendId::Codex));
    lemma_pick(w, v, now, model, Some(BackendId::Copilot));
    assert forall|id: Seq<char>| #[trigger] w.candidate(model, None, id) <==> ready(
        v,
        now,
        model,
        id,
    ) by {
        lemma_ready(v, now, model, id);
        assert(w.candidate(model, None, id) == x.candidate(model, None, id));
    }
    if let Some(e) = lookup(x.bindings, key) {
        lemma_ready(v, now, model, e.1);
    }
}

/// A request without a session, or whose session was not bound within the last
/// day, goes to the account with the fewest requests in flight of those that can
/// serve the model; of several, to the one whose id comes first.
pub proof fn law_new_session_goes_to_the_least_loaded(
    v: PoolView,
    now: int,
    sticky: Option<Seq<char>>,
    model: Seq<char>,
    other: Seq<char>,
)
    requires
        v.wf(),
        sticky matches Some(key) ==> forall|e: Entry| !#[trigger] bound_as(v, now, key, e),
        ready(v, now, model, other),
    ensures
        v.selected(now, sticky, model).0 matches Ok(s) && no_busier(v, s.account_id, other)
            && s.decision == (if sticky is Some {
            Decision::NewBinding
        } else {
            Decision::Unsticky
        }),
{
    let key = match sticky {
        Some(k) => k,
        None => Seq::empty(),
    };
    lemma_bases(v, now, key);
    lemma_bound(v, now, key);
    lemma_pick(v.swept(now), v, now, model, None);
}

/// A session that was bound within the last day to an account that can serve the
/// model goes to that account, however loaded it is, and its binding stays.
pub proof fn law_session_stays_with_its_account(
    v: PoolView,
    now: int,
    key: Seq<char>,
    model: Seq<char>,
    e: Entry,
)
    requires
        v.wf(),
        bound_as(v, now, key, e),
        ready(v, now, model, e.1),
    ensures
        v.selected(now, Some(key), model).0 matches Ok(s) && s.account_id == e.1 && s.decision
            == Decision::StickyHit,
        v.selected(now, Some(key), model).1.bindings.contains(e),
{
    lemma_bound(v, now, key);
    lemma_ready(v, now, model, e.1);
    law_bound_session_stays(v, now, key, model, e);
    lemma_lookup(v.selected(now, Some(key), model).1.bindings, key);
}

/// A session whose account cannot serve the model moves to the least loaded
/// account of the same backend that can. Where there is none, or its account is no
/// longer known, it moves to the least loaded account of all that can.
pub proof fn law_session_moves_within_its_backend(
    v: PoolView,
    now: int,
    key: Seq<char>,
    model: Seq<char>,
    e: Entry,
    other: Seq<char>,
)
    requires
        v.wf(),
        bound_as(v, now, key, e),
        !ready(v, now, model, e.1),
        ready(v, now, model, other),
    ensures
        ({
            let home = |id: Seq<char>|
                v.accounts.contains_key(e.1) && v.accounts[id].account.backend
                    == v.accounts[e.1].account.backend;
            let s = v.selected(now, Some(key), model).0->Ok_0;
            &&& v.selected(now, Some(key), model).0 is Ok
            &&& home(other) ==> home(s.account_id) && no_busier(v, s.account_id, other)
            &&& !home(s.account_id) ==> no_busier(v, s.account_id, other)
            &&& s.decision == (if home(s.account_id) || !v.accounts.contains_key(e.1) {
                Decision::StickyRebind
            } else {
                Decision::NewBinding
            })
        }),
{
    lemma_bound(v, now, key);
    lemma_bases(v, now, key);
    let x = v.swept(now);
    let w = PoolView { bindings: touched(x.bindings, key), ..x };
    lemma_ready(v, now, model, e.1);
    assert(w.candidate(model, None, e.1) == x.candidate(model, None, e.1));
    lemma_pick(w, v, now, model, None);
    lemma_pick(w, v, now, model, Some(BackendId::Codex));
    lemma_pick(w, v, now, model, Some(BackendId::Copilot));
}

/// Without an account that can serve the model a selection tells the earliest end
/// of the cooling of an account that would, and that there is none where none is
/// cooling. An account that is rejected or disabled does not count.
pub proof fn law_failed_selection_tells_the_earliest_end(
    v: PoolView,
    now: int,
    sticky: Option<Seq<char>>,
    model: Seq<char>,
)
    requires
        v.wf(),
        forall|id: Seq<char>| !#[trigger] ready(v, now, model, id),
    ensures
        match v.selected(now, sticky, model).0 {
            Ok(_) => false,
            Err(SelectError::Saturated { until_ms }) => {
                &&& exists|id: Seq<char>| #[trigger]
                    waiting(v, now, model, id) && v.accounts[id].account.reset_at == until_ms
                &&& forall|id: Seq<char>| #[trigger]
                    waiting(v, now, model, id) ==> until_ms <= v.accounts[id].account.reset_at
            },
            Err(SelectError::NoAccounts) => forall|id: Seq<char>| !#[trigger]
                waiting(v, now, model, id),
        },
{
    law_selection_gives_a_ready_account(v, now, sticky, model);
    crate::pool_laws::law_saturation_reports_earliest_reset(v, now, sticky, model);
    let x = v.swept(now);
    assert forall|id: Seq<char>| #[trigger] x.cooling(model, id) <==> waiting(v, now, model, id) by {
        lemma_ready(v, now, model, id);
    }
    assert forall|id: Seq<char>| #[trigger] waiting(v, now, model, id) implies x.cooling(
        model,
        id,
    ) && x.accounts[id].account.reset_at == v.accounts[id].account.reset_at by {
        lemma_ready(v, now, model, id);
    }
    if let Err(SelectError::Saturated { until_ms }) = v.selected(now, sticky, model).0 {
        let id = choose|id: Seq<char>| #[trigger]
            x.cooling(model, id) && x.accounts[id].account.reset_at == until_ms;
        assert(waiting(v, now, model, id));
    }
}

/// A selection leaves the accounts as they are, but for those whose cooling is
/// over; it leaves the catalogs, and it forgets the sessions that are older than a
/// day. It binds the session of the request to the account that it gives, and
/// where it gives none, or the request has no session, it binds nothing.
pub proof fn law_selection_binds_what_it_gives(
    v: PoolView,
    now: int,
    sticky: Option<Seq<char>>,
    model: Seq<char>,
)
    requires
        v.wf(),
    ensures
        ({
            let (choice, after) = v.selected(now, sticky, model);
            &&& after.accounts == v.swept(now).accounts
            &&& after.codex_models == v.codex_models && after.copilot_models == v.copilot_models
            &&& match (choice, sticky) {
                (Ok(s), Some(key)) => exists|e: Entry| #[trigger]
                    after.bindings.contains(e) && e.0 == key && e.1 == s.account_id && (if s.decision
                        == Decision::StickyHit {
                        v.bindings.contains(e)
                    } else {
                        e.2 == now
                    }),
                _ => forall|e: Entry| #[trigger]
                    after.bindings.contains(e) <==> v.bindings.contains(e) && now - e.2
                        <= 86_400_000,
            }
        }),
{
    law_selection_keeps_accounts(v, now, sticky, model);
    law_sweep_readmits_expired_cooling(v, now);
    law_sweep_keeps_validity(v, now);
    let (choice, after) = v.selected(now, sticky, model);
    if let Some(key) = sticky {
        lemma_bound(v, now, key);
        lemma_lookup(after.bindings, key);
        law_selection_binds_session(v, now, key, model);
        let x = v.swept(now);
        lemma_cache_stays_valid(x.bindings, v.cap, (key, key, 0));
        if choice is Ok {
            let e = lookup(after.bindings, key)->0;
            assert(after.bindings.contains(e));
            if choice->Ok_0.decision == Decision::StickyHit {
                let old = lookup(x.bindings, key)->0;
                lemma_lookup(x.bindings, key);
                assert(after.bindings == touched(x.bindings, key));
                assert(e == old);
            }
        } else {
            if let Some(e) = lookup(x.bindings, key) {
                lemma_touch_keeps(x.bindings, key);
                assert(after.bindings == touched(x.bindings, key));
            }
        }
    }
}

/// Using a session changes the order of the sessions only.
proof fn lemma_touch_keeps(s: Seq<Entry>, key: Seq<char>)
    requires
        crate::pool::distinct_keys(s),
    ensures
        forall|e: Entry| #[trigger] touched(s, key).contains(e) <==> s.contains(e),
{
    lemma_lookup(s, key);
    if let Some(f) = lookup(s, key) {
        crate::pool::lemma_without_key(s, key);
        lemma_kept(s, crate::pool::not_under(key));
        let w = crate::sticky::without_key(s, key);
        let t = seq![f] + w;
        assert forall|e: Entry| #[trigger] touched(s, key).contains(e) <==> s.contains(e) by {
            if t.contains(e) {
                let i = choose|i: int| 0 <= i < t.len() && t[i] == e;
                if i > 0 {
                    assert(w[i - 1] == e);
                    assert(w.contains(e));
                }
            }
            if s.contains(e) {
                if e.0 == key {
                    assert(t[0] == e);
                } else {
                    assert(crate::pool::not_under(key)(e));
                    assert(w.contains(e));
                    let j = choose|j: int| 0 <= j < w.len() && w[j] == e;
                    assert(t[j + 1] == e);
                }
            }
        }
    }
}

/// A request with a session makes that session the most recently used one. The
/// others stay, in their order; only where the pool remembers as many sessions as
/// it may, and this one is new, the one that was not used for the longest time is
/// forgotten.
pub proof fn law_used_session_is_the_most_recent(
    v: PoolView,
    now: int,
    key: Seq<char>,
    model: Seq<char>,
    e: Entry,
)
    requires
        v.wf(),
        v.selected(now, Some(key), model).0 is Ok,
    ensures
        ({
            let kept = v.swept(now).bindings;
            let after = v.selected(now, Some(key), model).1.bindings;
            let known = exists|x: Entry| #[trigger] bound_as(v, now, key, x);
            let least = kept.last();
            &&& after.len() > 0 && after[0].0 == key
            &&& e.0 != key && after.contains(e) ==> v.bindings.contains(e) && now - e.2
                <= 86_400_000
            &&& e.0 != key && v.bindings.contains(e) && now - e.2 <= 86_400_000 && (known
                || kept.len() < 10_000 || e != least) ==> after.contains(e)
            &&& !known && kept.len() < 10_000 ==> after.skip(1) == kept
            &&& !known && kept.len() == 10_000 ==> after.skip(1) == kept.drop_last()
            &&& known ==> after.skip(1) == without_key(kept, key)
        }),
{
    law_sweep_readmits_expired_cooling(v, now);
    law_sweep_keeps_validity(v, now);
    lemma_bound(v, now, key);
    let x = v.swept(now);
    let s = x.bindings;
    let after = v.selected(now, Some(key), model).1.bindings;
    lemma_cache_stays_valid(s, v.cap, (key, key, 0));
    lemma_lookup(s, key);
    let t = touched(s, key);
    lemma_lookup(t, key);
    assert(s.contains(e) <==> v.bindings.contains(e) && now - e.2 <= 86_400_000);
    if let Some(f) = lookup(s, key) {
        assert(bound_as(v, now, key, f));
        crate::pool::lemma_without_key(s, key);
        lemma_kept(s, crate::pool::not_under(key));
        let w = without_key(s, key);
        lemma_without_twice(s, key, f);
        assert(without_key(t, key) == w);
        assert(after.skip(1) =~= w);
        assert(after[0].0 == key);
        if e.0 != key {
            assert(crate::pool::not_under(key)(e));
            lemma_behind(after, e);
            assert(w.contains(e) <==> s.contains(e));
        }
    } else {
        assert(t == s);
        assert forall|y: Entry| !#[trigger] bound_as(v, now, key, y) by {}
        if s.len() < 10_000 {
            assert(after.skip(1) =~= s);
            lemma_behind(after, e);
        } else {
            assert(after.skip(1) =~= s.drop_last());
            lemma_behind(after, e);
            assert(s.contains(e) <==> s.drop_last().contains(e) || e == s.last()) by {
                if s.contains(e) {
                    let i = choose|i: int| 0 <= i < s.len() && s[i] == e;
                    if i < s.len() - 1 {
                        assert(s.drop_last()[i] == e);
                    }
                }
                if s.drop_last().contains(e) {
                    let i = choose|i: int| 0 <= i < s.drop_last().len() && s.drop_last()[i] == e;
                    assert(s[i] == e);
                }
                assert(s[s.len() - 1] == s.last());
            }
        }
    }
}

proof fn lemma_behind(s: Seq<Entry>, e: Entry)
    requires
        s.len() > 0,
    ensures
        s.contains(e) <==> s[0] == e || s.skip(1).contains(e),
{
    if s.contains(e) {
        let i = choose|i: int| 0 <= i < s.len() && s[i] == e;
        if i > 0 {
            assert(s.skip(1)[i - 1] == e);
        }
    }
    if s.skip(1).contains(e) {
        let i = choose|i: int| 0 <= i < s.skip(1).len() && s.skip(1)[i] == e;
        assert(s[i + 1] == e);
    }
}

proof fn lemma_without_twice(s: Seq<Entry>, key: Seq<char>, f: Entry)
    requires
        f.0 == key,
    ensures
        without_key(seq![f] + without_key(s, key), key) == without_key(s, key),
    decreases s.len(),
{
    let w = without_key(s, key);
    let p = seq![f] + w;
    if s.len() == 0 {
        assert(p.drop_last() =~= Seq::<Entry>::empty());
        assert(p.last() == f);
        reveal_with_fuel(without_key, 2);
        assert(without_key(p, key) =~= w);
    } else {
        lemma_without_twice(s.drop_last(), key, f);
        if s.last().0 != key {
            assert(p.drop_last() =~= seq![f] + without_key(s.drop_last(), key));
            assert(p.last() == s.last());
        }
    }
}

} // verus!
