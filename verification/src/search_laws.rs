//! What each turn of a search for a banked reset does, and what a whole search
//! amounts to.
use crate::models::{Account, AccountStatus};
use crate::pool::PoolView;
use crate::reset_laws::{
    codex_is, is_open, law_longest_blocked_candidate_is_chosen,
    law_natural_recovery_is_the_latest_reset, recovers_at,
};
use crate::resets::{
    best_candidate, codex_serves, expiries, expiry_of, first_credit, lemma_position, position,
    recovery_of, row_of, usable, Candidate, ConsumeCode, LedgerRow, ManagerView, RunActionView,
    RunEvent, RunPhase, RunView, SnapshotView,
};
use crate::text::opt_view;
use vstd::prelude::*;

verus! {

/// The search is going through the accounts.
pub open spec fn searching(run: RunView) -> bool {
    run.valid() && (run.phase == RunPhase::Usage || run.phase is Credits)
}

/// Upstream allows the account.
pub open spec fn allowed(usage: Option<SnapshotView>) -> bool {
    usage matches Some(s) && (s.rate_limit matches Some(l) && l.allowed == Some(true))
}

/// Upstream blocks the account until this time.
pub open spec fn blocked_until(usage: Option<SnapshotView>, now: int, t: i64) -> bool {
    usage matches Some(s) && (s.rate_limit matches Some(l) && recovers_at(l, now, t))
}

/// The turn tells that the account that is looked at is blocked until this time and
/// could spend this credit: it has an open redemption of it, or it is the one of
/// its credits that can be spent which ends first.
pub open spec fn tells_credit(
    run: RunView,
    event: RunEvent,
    usage: Option<SnapshotView>,
    ledger: Seq<LedgerRow>,
    t: i64,
    credit: Seq<char>,
    end: Option<i64>,
) -> bool {
    match event {
        RunEvent::Usage(_) => {
            &&& blocked_until(usage, run.now, t)
            &&& is_open(ledger, run.accounts[run.at].id@)
            &&& row_of(ledger, run.accounts[run.at].id@)->0.credit_id@ == credit
            &&& end is None
        },
        RunEvent::Credits(Some(list)) => {
            &&& run.phase == (RunPhase::Credits { recovery_ms: t })
            &&& first_credit(usable(list@)) matches Some(c) && c.id@ == credit && end == expiry_of(
                opt_view(c.expires_at),
            )
        },
        _ => false,
    }
}

/// The turn tells that the account is blocked until this time, has credits, and no
/// stored redemption.
pub open spec fn tells_blocked(
    run: RunView,
    event: RunEvent,
    usage: Option<SnapshotView>,
    ledger: Seq<LedgerRow>,
    t: i64,
) -> bool {
    &&& event is Usage
    &&& blocked_until(usage, run.now, t)
    &&& row_of(ledger, run.accounts[run.at].id@) is None
    &&& usage->0.available_resets != 0
}

proof fn lemma_recovery(usage: Option<SnapshotView>, now: int)
    ensures
        forall|t: i64| #[trigger]
            blocked_until(usage, now, t) <==> (usage matches Some(s) && (s.rate_limit matches Some(
                l,
            ) && recovery_of(l, now) == Some(t))),
        forall|t: i64| #[trigger] blocked_until(usage, now, t) ==> !allowed(usage),
{
    assert forall|t: i64| #[trigger]
        blocked_until(usage, now, t) <==> (usage matches Some(s) && (s.rate_limit matches Some(l)
            && recovery_of(l, now) == Some(t))) by {
        if let Some(s) = usage {
            if let Some(l) = s.rate_limit {
                law_natural_recovery_is_the_latest_reset(l, now, t);
            }
        }
    }
}

/// What a turn tells of a credit is kept: the account becomes a candidate with that
/// credit and the time until which it is blocked. The candidates before it stay,
/// and nothing else makes or drops a candidate.
pub proof fn law_told_credit_makes_a_candidate(
    run: RunView,
    event: RunEvent,
    usage: Option<SnapshotView>,
    ledger: Seq<LedgerRow>,
    pool: PoolView,
    t: i64,
    credit: Seq<char>,
    end: Option<i64>,
)
    requires
        searching(run),
        run.expects(event),
    ensures
        ({
            let next = run.after(event, usage, ledger, pool).0;
            let before = run.candidates;
            &&& next.accounts == run.accounts && next.now == run.now
            &&& before.is_prefix_of(next.candidates)
            &&& tells_credit(run, event, usage, ledger, t, credit, end) ==> {
                &&& next.candidates.len() == before.len() + 1
                &&& next.candidates.last().account_id@ == run.accounts[run.at].id@
                &&& next.candidates.last().recovery_ms == t
                &&& next.candidates.last().credit_id@ == credit
                &&& next.candidates.last().credit_expiry_ms == end
            }
            &&& (forall|t: i64, c: Seq<char>, e: Option<i64>|
                !#[trigger] tells_credit(run, event, usage, ledger, t, c, e)) ==> next.candidates
                == before
        }),
{
    lemma_recovery(usage, run.now);
    let next = run.after(event, usage, ledger, pool).0;
    match event {
        RunEvent::Usage(_) => {
            if let Some(s) = usage {
                if let Some(l) = s.rate_limit {
                    if let Some(u) = recovery_of(l, run.now) {
                        assert(blocked_until(usage, run.now, u));
                        if let Some(row) = row_of(ledger, run.accounts[run.at].id@) {
                            if is_open(ledger, run.accounts[run.at].id@) {
                                assert(tells_credit(
                                    run,
                                    event,
                                    usage,
                                    ledger,
                                    u,
                                    row.credit_id@,
                                    None,
                                ));
                            }
                        }
                    }
                }
            }
        },
        RunEvent::Credits(Some(list)) => {
            if let Some(c) = first_credit(usable(list@)) {
                assert(tells_credit(
                    run,
                    event,
                    usage,
                    ledger,
                    run.phase->recovery_ms,
                    c.id@,
                    expiry_of(opt_view(c.expires_at)),
                ));
            }
        },
        _ => {},
    }
}

/// While accounts are left, a turn of the search goes on to the next one. It first
/// asks for the credits of an account that is blocked, has credits and no
/// stored redemption; and it ends only where upstream allows the account. So
/// nothing is stored or redeemed before the last account was looked at.
pub proof fn law_search_goes_through_all_accounts(
    run: RunView,
    event: RunEvent,
    usage: Option<SnapshotView>,
    ledger: Seq<LedgerRow>,
    pool: PoolView,
    t: i64,
)
    requires
        searching(run),
        run.expects(event),
    ensures
        ({
            let (next, action, effects, after) = run.after(event, usage, ledger, pool);
            let found = event is Usage && allowed(usage);
            &&& found ==> action == RunActionView::Done(true)
            &&& tells_blocked(run, event, usage, ledger, t) ==> {
                &&& action == RunActionView::ReadCredits(run.accounts[run.at])
                &&& next.at == run.at && next.phase == (RunPhase::Credits { recovery_ms: t })
            }
            &&& !found && run.at + 1 < run.accounts.len() && (forall|u: i64|
                !#[trigger] tells_blocked(run, event, usage, ledger, u)) ==> {
                &&& action == RunActionView::ReadUsage(run.accounts[run.at + 1])
                &&& next.at == run.at + 1 && next.phase == RunPhase::Usage
            }
            &&& !found ==> after == pool && !effects.readmit && !effects.clear && !effects.complete
        }),
{
    lemma_recovery(usage, run.now);
    if let Some(s) = usage {
        if let Some(l) = s.rate_limit {
            if let Some(u) = recovery_of(l, run.now) {
                assert(blocked_until(usage, run.now, u));
                if event is Usage && row_of(ledger, run.accounts[run.at].id@) is None
                    && s.available_resets != 0 {
                    assert(tells_blocked(run, event, usage, ledger, u));
                }
            }
        }
    }
}

/// Some account of the search has this id.
pub open spec fn searches(run: RunView, id: Seq<char>) -> bool {
    exists|i: int| 0 <= i < run.accounts.len() && (#[trigger] run.accounts[i]).id@ == id
}

proof fn lemma_searched(s: Seq<Account>, id: Seq<char>)
    ensures
        position(s, id) < s.len() <==> exists|i: int|
            0 <= i < s.len() && (#[trigger] s[i]).id@ == id,
        0 <= position(s, id) <= s.len(),
        position(s, id) < s.len() ==> s[position(s, id)].id@ == id,
    decreases s.len(),
{
    lemma_position(s, id);
    if s.len() > 0 && s[0].id@ != id {
        let rest = s.skip(1);
        lemma_searched(rest, id);
        if exists|i: int| 0 <= i < s.len() && (#[trigger] s[i]).id@ == id {
            let i = choose|i: int| 0 <= i < s.len() && (#[trigger] s[i]).id@ == id;
            assert(rest[i - 1] == s[i]);
        }
    } else if s.len() > 0 {
        assert(s[0].id@ == id);
    }
}

/// After the last account the preferred candidate is redeemed, if no Codex account
/// is healthy and it still cools: under its stored redemption where that is open,
/// else the redemption is stored first. One that was made is not repeated. With no
/// candidate the search ends.
pub proof fn law_search_redeems_the_preferred_candidate(
    run: RunView,
    event: RunEvent,
    usage: Option<SnapshotView>,
    ledger: Seq<LedgerRow>,
    pool: PoolView,
)
    requires
        searching(run),
        run.expects(event),
        run.at + 1 == run.accounts.len(),
        !(event is Usage && allowed(usage)),
        forall|u: i64| !#[trigger] tells_blocked(run, event, usage, ledger, u),
    ensures
        ({
            let (next, action, _, _) = run.after(event, usage, ledger, pool);
            match best_candidate(next.candidates) {
                None => action == RunActionView::Done(false),
                Some(c) => {
                    let id = c.account_id@;
                    let open = (forall|x: Seq<char>|
                        !#[trigger] codex_is(pool, x, AccountStatus::Healthy))
                        && pool.accounts.contains_key(id) && pool.accounts[id].account.status
                        == AccountStatus::Cooling && searches(run, id);
                    &&& !open ==> action == RunActionView::Done(false)
                    &&& open && row_of(ledger, id) is None ==> action == (RunActionView::Save {
                        account_id: id,
                        credit_id: c.credit_id@,
                    }) && next.phase == RunPhase::Save && next.accounts[next.at].id@ == id
                    &&& open && row_of(ledger, id) is Some && !is_open(ledger, id) ==> action
                        == RunActionView::Done(false)
                    &&& open && is_open(ledger, id) ==> {
                        &&& action matches RunActionView::Redeem {
                            account,
                            credit_id,
                            redemption_id,
                        } && account.id@ == id && credit_id == row_of(ledger, id)->0.credit_id@
                            && redemption_id == row_of(ledger, id)->0.request_id@
                        &&& next.phase == RunPhase::Redeem && next.accounts[next.at].id@ == id
                    }
                },
            }
        }),
{
    lemma_recovery(usage, run.now);
    let (next, action, _, _) = run.after(event, usage, ledger, pool);
    if let Some(s) = usage {
        if let Some(l) = s.rate_limit {
            if let Some(u) = recovery_of(l, run.now) {
                assert(blocked_until(usage, run.now, u));
                if event is Usage && row_of(ledger, run.accounts[run.at].id@) is None
                    && s.available_resets != 0 {
                    assert(tells_blocked(run, event, usage, ledger, u));
                }
            }
        }
    }
    assert(codex_serves(pool) <==> exists|x: Seq<char>| #[trigger]
        codex_is(pool, x, AccountStatus::Healthy)) by {
        if codex_serves(pool) {
            let x = choose|x: Seq<char>| crate::resets::codex_healthy(pool, x);
            assert(codex_is(pool, x, AccountStatus::Healthy));
        }
        if exists|x: Seq<char>| #[trigger] codex_is(pool, x, AccountStatus::Healthy) {
            let x = choose|x: Seq<char>| #[trigger] codex_is(pool, x, AccountStatus::Healthy);
            assert(crate::resets::codex_healthy(pool, x));
        }
    }
    if let Some(c) = best_candidate(next.candidates) {
        lemma_searched(run.accounts, c.account_id@);
    }
}

// ---------------------------------------------------------------------------
// Whole searches
// ---------------------------------------------------------------------------

/// One turn of a search: the event, what it says of usage, and the ledger and the
/// pool at that time.
pub struct Turn {
    pub event: RunEvent,
    pub usage: Option<SnapshotView>,
    pub ledger: Seq<LedgerRow>,
    pub pool: PoolView,
}

/// The search after some turns.
pub open spec fn run_to(run: RunView, turns: Seq<Turn>) -> RunView
    decreases turns.len(),
{
    if turns.len() == 0 {
        run
    } else {
        let t = turns.last();
        run_to(run, turns.drop_last()).after(t.event, t.usage, t.ledger, t.pool).0
    }
}

/// Each turn is one that the search expects, and it goes through the accounts until
/// the last of them.
pub open spec fn is_search(run: RunView, turns: Seq<Turn>) -> bool {
    forall|i: int|
        0 <= i < turns.len() ==> searching(run_to(run, #[trigger] turns.take(i))) && run_to(
            run,
            turns.take(i),
        ).expects(turns[i].event)
}

/// In one of the turns the usage of the account was read.
pub open spec fn was_asked(run: RunView, turns: Seq<Turn>, k: int) -> bool {
    exists|i: int|
        0 <= i < turns.len() && turns[i].event is Usage && run_to(
            run,
            #[trigger] turns.take(i),
        ).at == k
}

proof fn lemma_asked(run: RunView, turns: Seq<Turn>)
    requires
        run.phase == RunPhase::Usage,
        run.at == 0,
        run.valid(),
        is_search(run, turns),
        searching(run_to(run, turns)),
    ensures
        ({
            let now = run_to(run, turns);
            &&& forall|k: int| 0 <= k < now.at ==> #[trigger] was_asked(run, turns, k)
            &&& now.phase is Credits ==> was_asked(run, turns, now.at)
            &&& now.accounts == run.accounts
        }),
    decreases turns.len(),
{
    if turns.len() > 0 {
        let head = turns.drop_last();
        let n = turns.len() - 1;
        assert(turns.take(n) =~= head);
        assert(searching(run_to(run, turns.take(n))));
        assert forall|i: int| 0 <= i < head.len() implies searching(
            run_to(run, #[trigger] head.take(i)),
        ) && run_to(run, head.take(i)).expects(head[i].event) by {
            assert(head.take(i) =~= turns.take(i));
            assert(head[i] == turns[i]);
        }
        lemma_asked(run, head);
        let before = run_to(run, head);
        let now = run_to(run, turns);
        let t = turns.last();
        assert(turns[n] == t);
        assert forall|k: int| #[trigger] was_asked(run, head, k) implies was_asked(
            run,
            turns,
            k,
        ) by {
            let i = choose|i: int|
                0 <= i < head.len() && head[i].event is Usage && run_to(
                    run,
                    #[trigger] head.take(i),
                ).at == k;
            assert(head.take(i) =~= turns.take(i));
            assert(turns[i] == head[i]);
            assert(run_to(run, turns.take(i)).at == k);
        }
        if t.event is Usage {
            assert(run_to(run, turns.take(n)).at == before.at);
            assert(was_asked(run, turns, before.at));
        } else {
            assert(before.phase is Credits);
            assert(was_asked(run, turns, before.at));
        }
        law_told_credit_makes_a_candidate(
            before,
            t.event,
            t.usage,
            t.ledger,
            t.pool,
            0,
            Seq::empty(),
            None,
        );
        lemma_at(before, t);
        assert forall|k: int| 0 <= k < now.at implies #[trigger] was_asked(run, turns, k) by {
            if k < before.at {
                assert(was_asked(run, head, k));
            }
        }
    }
}

/// A turn after which the search goes on stays with the account, or goes on by one;
/// one that stores or redeems is made at the last account.
proof fn lemma_at(run: RunView, t: Turn)
    requires
        searching(run),
        run.expects(t.event),
    ensures
        ({
            let (next, action, _, _) = run.after(t.event, t.usage, t.ledger, t.pool);
            &&& searching(next) ==> next.at == run.at && next.phase is Credits && t.event is Usage
                || next.at == run.at + 1 && next.phase == RunPhase::Usage
            &&& action is Save || action is Redeem ==> run.at + 1 == run.accounts.len()
        }),
{
    lemma_recovery(t.usage, run.now);
    law_search_goes_through_all_accounts(run, t.event, t.usage, t.ledger, t.pool, 0);
    let (next, action, _, _) = run.after(t.event, t.usage, t.ledger, t.pool);
    assert forall|u: i64| #[trigger]
        tells_blocked(run, t.event, t.usage, t.ledger, u) implies action is ReadCredits && next.at
        == run.at && next.phase is Credits by {
        law_search_goes_through_all_accounts(run, t.event, t.usage, t.ledger, t.pool, u);
    }
}

/// A search stores or makes its redemption only after the usage of every account
/// that it considers was read.
pub proof fn law_every_account_is_asked_before_a_redemption(
    run: RunView,
    turns: Seq<Turn>,
    t: Turn,
    k: int,
)
    requires
        run.phase == RunPhase::Usage,
        run.at == 0,
        run.valid(),
        is_search(run, turns),
        searching(run_to(run, turns)),
        run_to(run, turns).expects(t.event),
        0 <= k < run.accounts.len(),
        ({
            let action = run_to(run, turns).after(t.event, t.usage, t.ledger, t.pool).1;
            action is Save || action is Redeem
        }),
    ensures
        was_asked(run, turns.push(t), k),
{
    let before = run_to(run, turns);
    let all = turns.push(t);
    lemma_asked(run, turns);
    lemma_at(before, t);
    let n = turns.len() as int;
    assert(all.take(n) =~= turns);
    assert forall|j: int| #[trigger] was_asked(run, turns, j) implies was_asked(run, all, j) by {
        let i = choose|i: int|
            0 <= i < turns.len() && turns[i].event is Usage && run_to(
                run,
                #[trigger] turns.take(i),
            ).at == j;
        assert(all.take(i) =~= turns.take(i));
        assert(all[i] == turns[i]);
        assert(run_to(run, all.take(i)).at == j);
    }
    if k == before.at {
        if t.event is Usage {
            assert(all[n].event is Usage && run_to(run, all.take(n)).at == k);
        } else {
            assert(before.phase is Credits);
        }
    } else {
        assert(was_asked(run, turns, k));
    }
}

proof fn lemma_candidates_stay(run: RunView, turns: Seq<Turn>, i: int)
    requires
        is_search(run, turns),
        0 <= i <= turns.len(),
    ensures
        run_to(run, turns.take(i)).candidates.is_prefix_of(run_to(run, turns).candidates),
    decreases turns.len(),
{
    if i == turns.len() {
        assert(turns.take(i) =~= turns);
    } else {
        let head = turns.drop_last();
        let n = turns.len() - 1;
        assert(turns.take(n) =~= head);
        assert(searching(run_to(run, turns.take(n))));
        assert forall|j: int| 0 <= j < head.len() implies searching(
            run_to(run, #[trigger] head.take(j)),
        ) && run_to(run, head.take(j)).expects(head[j].event) by {
            assert(head.take(j) =~= turns.take(j));
            assert(head[j] == turns[j]);
        }
        lemma_candidates_stay(run, head, i);
        assert(head.take(i) =~= turns.take(i));
        let t = turns.last();
        assert(turns[n] == t);
        law_told_credit_makes_a_candidate(
            run_to(run, head),
            t.event,
            t.usage,
            t.ledger,
            t.pool,
            0,
            Seq::empty(),
            None,
        );
    }
}

/// The account that a search stores or makes a redemption for is blocked for at
/// least as long as every account of which it was told that it could spend a
/// credit.
pub proof fn law_redeemed_account_is_blocked_the_longest(
    run: RunView,
    turns: Seq<Turn>,
    i: int,
    t: i64,
    credit: Seq<char>,
    end: Option<i64>,
)
    requires
        turns.len() > 0,
        is_search(run, turns),
        0 <= i < turns.len(),
        tells_credit(
            run_to(run, turns.take(i)),
            turns[i].event,
            turns[i].usage,
            turns[i].ledger,
            t,
            credit,
            end,
        ),
    ensures
        ({
            let last = turns.last();
            let before = run_to(run, turns.drop_last());
            let (next, action, _, _) = before.after(last.event, last.usage, last.ledger, last.pool);
            &&& action matches RunActionView::Save { account_id, credit_id } ==> exists|c: Candidate|
                #[trigger] next.candidates.contains(c) && c.account_id@ == account_id
                    && c.credit_id@ == credit_id && c.recovery_ms >= t
            &&& action matches RunActionView::Redeem { account, .. } ==> exists|c: Candidate|
                #[trigger] next.candidates.contains(c) && c.account_id@ == account.id@
                    && c.recovery_ms >= t
        }),
{
    let n = turns.len() - 1;
    let last = turns.last();
    let head = turns.drop_last();
    assert(turns.take(n) =~= head);
    assert(turns[n] == last);
    assert(searching(run_to(run, turns.take(n))));
    let before = run_to(run, head);
    let (next, action, _, _) = before.after(last.event, last.usage, last.ledger, last.pool);
    assert(next == run_to(run, turns));
    let then = run_to(run, turns.take(i));
    assert(searching(then));
    law_told_credit_makes_a_candidate(
        then,
        turns[i].event,
        turns[i].usage,
        turns[i].ledger,
        turns[i].pool,
        t,
        credit,
        end,
    );
    assert(turns.take(i + 1).drop_last() =~= turns.take(i));
    assert(turns.take(i + 1).last() == turns[i]);
    let made = run_to(run, turns.take(i + 1)).candidates;
    lemma_candidates_stay(run, turns, i + 1);
    let d = made.last();
    assert(next.candidates[made.len() - 1] == d);
    assert(next.candidates.contains(d));
    law_longest_blocked_candidate_is_chosen(next.candidates, d);
    if action is Save || action is Redeem {
        lemma_at(before, last);
        assert forall|u: i64| !#[trigger]
            tells_blocked(before, last.event, last.usage, last.ledger, u) by {
            law_search_goes_through_all_accounts(
                before,
                last.event,
                last.usage,
                last.ledger,
                last.pool,
                u,
            );
        }
        law_search_goes_through_all_accounts(
            before,
            last.event,
            last.usage,
            last.ledger,
            last.pool,
            0,
        );
        law_search_redeems_the_preferred_candidate(
            before,
            last.event,
            last.usage,
            last.ledger,
            last.pool,
        );
    }
}

// ---------------------------------------------------------------------------
// Redemptions
// ---------------------------------------------------------------------------

/// A redemption that was stored is made as it stands in the ledger, if it is still
/// open there.
pub proof fn law_stored_redemption_is_made_as_stored(
    run: RunView,
    usage: Option<SnapshotView>,
    ledger: Seq<LedgerRow>,
    pool: PoolView,
)
    requires
        run.valid(),
        run.phase == RunPhase::Save,
    ensures
        ({
            let (next, action, effects, after) = run.after(RunEvent::Saved, usage, ledger, pool);
            let id = run.accounts[run.at].id@;
            &&& is_open(ledger, id) ==> action == (RunActionView::Redeem {
                account: run.accounts[run.at],
                credit_id: row_of(ledger, id)->0.credit_id@,
                redemption_id: row_of(ledger, id)->0.request_id@,
            }) && next.phase == RunPhase::Redeem && next.at == run.at && next.accounts
                == run.accounts
            &&& !is_open(ledger, id) ==> action == RunActionView::Done(false)
            &&& after == pool && !effects.readmit && !effects.clear && !effects.complete
        }),
{
}

/// A redemption that upstream made, now or before, is marked as made, and usage is
/// read to see whether it worked; one that upstream refused is forgotten; and one
/// whose outcome is not known stays open. None of these changes the pool.
pub proof fn law_redemption_is_kept_by_its_outcome(
    run: RunView,
    code: Option<ConsumeCode>,
    usage: Option<SnapshotView>,
    ledger: Seq<LedgerRow>,
    pool: PoolView,
)
    requires
        run.valid(),
        run.phase == RunPhase::Redeem,
    ensures
        ({
            let (next, action, effects, after) = run.after(
                RunEvent::Consumed(code),
                usage,
                ledger,
                pool,
            );
            &&& after == pool && !effects.readmit
            &&& code == Some(ConsumeCode::Reset) || code == Some(ConsumeCode::AlreadyRedeemed) ==> {
                &&& effects.complete && !effects.clear
                &&& action == RunActionView::ReadUsage(run.accounts[run.at])
                &&& next.at == run.at && next.accounts == run.accounts
            }
            &&& code == Some(ConsumeCode::NothingToReset) || code == Some(ConsumeCode::NoCredit)
                ==> effects.clear && !effects.complete && action == RunActionView::Done(false)
            &&& code is None ==> !effects.clear && !effects.complete && action
                == RunActionView::Done(false)
        }),
{
}

/// After a redemption usage is read three times at most. Where upstream never allows
/// the account, the search ends without a recovery, and nothing is changed.
pub proof fn law_redemption_is_confirmed_by_three_reads(
    run: RunView,
    code: ConsumeCode,
    a: RunEvent,
    b: RunEvent,
    c: RunEvent,
    first: Option<SnapshotView>,
    second: Option<SnapshotView>,
    third: Option<SnapshotView>,
    ledger: Seq<LedgerRow>,
    pool: PoolView,
)
    requires
        run.valid(),
        run.phase == RunPhase::Redeem,
        code == ConsumeCode::Reset || code == ConsumeCode::AlreadyRedeemed,
        a is Usage && b is Usage && c is Usage,
        !allowed(first) && !allowed(second) && !allowed(third),
    ensures
        ({
            let account = run.accounts[run.at];
            let r0 = run.after(RunEvent::Consumed(Some(code)), None, ledger, pool).0;
            let r1 = r0.after(a, first, ledger, pool);
            let r2 = r1.0.after(b, second, ledger, pool);
            let r3 = r2.0.after(c, third, ledger, pool);
            &&& r1.1 == RunActionView::Recheck(account) && r1.3 == pool
            &&& r2.1 == RunActionView::Recheck(account) && r2.3 == pool
            &&& r3.1 == RunActionView::Done(false) && r3.3 == pool
            &&& !r1.2.clear && !r2.2.clear && !r3.2.clear
            &&& !r1.2.readmit && !r2.2.readmit && !r3.2.readmit
        }),
{
}

/// An account that upstream allows has recovered, while the search goes through the
/// accounts and after a redemption: its redemption is forgotten, and if it
/// cools it is healthy. No other account changes.
pub proof fn law_allowed_account_has_recovered(
    run: RunView,
    event: RunEvent,
    usage: Option<SnapshotView>,
    ledger: Seq<LedgerRow>,
    pool: PoolView,
    other: Seq<char>,
)
    requires
        run.valid(),
        run.expects(event),
        event is Usage,
        allowed(usage),
    ensures
        ({
            let (next, action, effects, after) = run.after(event, usage, ledger, pool);
            let id = run.accounts[run.at].id@;
            let cools = pool.accounts.contains_key(id) && pool.accounts[id].account.status
                == AccountStatus::Cooling;
            &&& action == RunActionView::Done(true) && next.phase == RunPhase::Over
            &&& effects.clear && !effects.complete && effects.readmit == cools
            &&& cools ==> after.accounts[id].account.status == AccountStatus::Healthy
                && after.accounts[id].account.reset_at == 0
            &&& !cools ==> after == pool
            &&& other != id && pool.accounts.contains_key(other) ==> after.accounts[other]
                == pool.accounts[other]
            &&& after.bindings == pool.bindings
        }),
{
}

/// What is read of an account is noted for it: its usage as it was reported, and
/// the ends of the credits that can be spent. Where nothing could be read nothing
/// is noted.
pub proof fn law_search_notes_what_it_reads(
    run: RunView,
    event: RunEvent,
    manager: ManagerView,
    fetched: int,
)
    ensures
        ({
            let (after, usage) = run.noted(event, manager, fetched);
            let account = run.accounts[run.at];
            &&& event matches RunEvent::Usage(Some(r)) ==> (after, usage) == manager.reported(
                account,
                r,
                fetched,
            )
            &&& event is Saved || event is Consumed || event == RunEvent::Usage(None) || event
                == RunEvent::Credits(None) ==> after == manager && usage is None
            &&& event matches RunEvent::Credits(Some(list)) ==> {
                &&& usage is None
                &&& manager.snapshots.contains_key(account.id@)
                    ==> after.snapshots[account.id@].credit_expirations == expiries(usable(list@))
                    && after.snapshots[account.id@].rate_limit
                    == manager.snapshots[account.id@].rate_limit
                &&& !manager.snapshots.contains_key(account.id@) ==> after == manager
            }
        }),
{
}

} // verus!
