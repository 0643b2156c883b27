use underclass::models::{Account, AccountStatus, BackendId};
use underclass::pool::PoolCore;
use underclass::resets::{
    apply_poll, blocked_cooling_deadline, choose_candidate, expiry_ms, is_polled,
    natural_recovery_ms, set_status_if, soonest_credit, usable_credits, Candidate, ConsumeCode,
    Credit, LedgerRow, RateLimit, ResetManager, RunAction, RunEffects, RunEvent, UsageResponse,
    UsageSnapshot, Window,
};

#[test]
fn six_day_account_beats_tomorrow_account() {
    let selected = choose_candidate(&vec![
        Candidate {
            account_id: "A".into(),
            recovery_ms: 86_400_000,
            credit_id: "a".into(),
            credit_expiry_ms: None,
        },
        Candidate {
            account_id: "B".into(),
            recovery_ms: 6 * 86_400_000,
            credit_id: "b".into(),
            credit_expiry_ms: None,
        },
    ])
    .unwrap();
    assert_eq!(selected.account_id, "B");
}

fn candidate(id: &str, recovery_ms: i64, end: Option<i64>) -> Candidate {
    Candidate {
        account_id: id.into(),
        recovery_ms,
        credit_id: format!("credit-{id}"),
        credit_expiry_ms: end,
    }
}

#[test]
fn equal_recoveries_prefer_the_credit_that_ends_first() {
    let pick = |list: Vec<Candidate>| choose_candidate(&list).unwrap().account_id;
    assert_eq!(pick(vec![candidate("a", 5, None), candidate("b", 5, Some(9))]), "b");
    assert_eq!(pick(vec![candidate("a", 5, Some(3)), candidate("b", 5, Some(9))]), "a");
    assert_eq!(pick(vec![candidate("b", 5, None), candidate("a", 5, None)]), "a");
    assert_eq!(pick(vec![candidate("b", 5, None), candidate("a", 4, Some(1))]), "b");
    assert!(choose_candidate(&Vec::new()).is_none());
}

#[test]
fn test_reset_candidate_has_latest_natural_recovery() {
    for waits in [vec![1i64], vec![5, 604_800_000, 7], vec![9, 9, 3, 8]] {
        let expected = *waits.iter().max().unwrap();
        let list: Vec<Candidate> = waits
            .iter()
            .enumerate()
            .map(|(i, w)| candidate(&format!("account-{i}"), *w, None))
            .collect();
        assert_eq!(choose_candidate(&list).unwrap().recovery_ms, expected);
    }
}

fn window(deadline: i64, used_percent: i64) -> Option<Window> {
    Some(Window { used_percent, reset_at: Some(deadline), limit_window_seconds: None })
}

fn limit(allowed: Option<bool>, primary: Option<Window>, secondary: Option<Window>) -> RateLimit {
    RateLimit {
        allowed,
        limit_reached: allowed.map(|a| !a),
        primary_window: primary,
        secondary_window: secondary,
    }
}

#[test]
fn test_recovery_is_latest_exhausted_window() {
    for primary in [1i64, 400, 500_000] {
        for secondary in [1i64, 300, 499_999] {
            for (p, s) in [(true, true), (true, false), (false, true), (false, false)] {
                let l = limit(
                    Some(false),
                    window(primary, if p { 100 } else { 40 }),
                    window(secondary, if s { 100 } else { 40 }),
                );
                let expected = [p.then_some(primary * 1000), s.then_some(secondary * 1000)]
                    .into_iter()
                    .flatten()
                    .max();
                assert_eq!(natural_recovery_ms(&l, 0), expected);
            }
        }
    }
}

#[test]
fn recovery_needs_a_blocked_account_and_a_future_reset() {
    let l = limit(Some(false), window(100, 99), None);
    assert_eq!(natural_recovery_ms(&l, 99_999), Some(100_000));
    assert_eq!(natural_recovery_ms(&l, 100_000), None);
    assert_eq!(natural_recovery_ms(&limit(Some(true), window(100, 99), None), 0), None);
    assert_eq!(natural_recovery_ms(&limit(None, window(100, 99), None), 0), None);
    let mut open = l;
    open.limit_reached = Some(false);
    assert_eq!(natural_recovery_ms(&open, 0), None);
    assert_eq!(natural_recovery_ms(&limit(Some(false), window(i64::MAX, 99), None), 0), None);
}

#[test]
fn test_blocked_usage_never_shortens_cooling() {
    for (current, recovery) in [(1i64, 1_000_000i64), (500, 500), (900, 3)] {
        let result = blocked_cooling_deadline(AccountStatus::Cooling, current, recovery);
        assert!(result.map_or(true, |deadline| deadline >= current && deadline == recovery));
        assert_eq!(blocked_cooling_deadline(AccountStatus::Disabled, current, recovery), None);
        assert_eq!(blocked_cooling_deadline(AccountStatus::AuthError, current, recovery), None);
        assert_eq!(
            blocked_cooling_deadline(AccountStatus::Healthy, current, recovery),
            Some(recovery)
        );
    }
}

fn account(id: &str, status: AccountStatus, reset_at: i64) -> Account {
    Account {
        id: id.into(),
        backend: BackendId::Codex,
        label: "owner@example.test".into(),
        refresh_token: Some("unused".into()),
        access_token: Some("test-token".into()),
        expires_at: i64::MAX,
        token_refreshed_at: 0,
        account_id: Some("chatgpt-account".into()),
        residency: None,
        enterprise_url: None,
        status,
        reset_at,
        created_at: 0,
        updated_at: 0,
    }
}

fn pool(accounts: Vec<Account>) -> PoolCore {
    PoolCore::new(accounts, Vec::new(), &Vec::new(), &Vec::new())
}

fn usage(allowed: bool, credits: i64) -> UsageResponse {
    UsageResponse {
        account_id: Some("chatgpt-account".into()),
        rate_limit: Some(limit(
            Some(allowed),
            window(3_600, if allowed { 0 } else { 100 }),
            window(518_400, if allowed { 0 } else { 100 }),
        )),
        available_count: Some(credits),
    }
}

fn credit(id: &str, expires_at: Option<&str>) -> Credit {
    Credit {
        id: id.into(),
        reset_type: "codex_rate_limits".into(),
        status: "available".into(),
        expires_at: expires_at.map(str::to_string),
    }
}

fn row(state: &str) -> LedgerRow {
    LedgerRow {
        account_id: "account-1".into(),
        credit_id: "credit-1".into(),
        request_id: "key-1".into(),
        state: state.into(),
    }
}

#[test]
fn outage_redeems_once_and_readmits() {
    let mut pool = pool(vec![account("account-1", AccountStatus::Cooling, 3_600_000)]);
    let mut manager = ResetManager::new("http://host//", true);
    assert_eq!(manager.base_url(), "http://host");
    let mut ledger = Vec::new();
    let (mut run, first) = manager.begin(&mut pool, &ledger, 100_000).unwrap();
    assert!(matches!(first, RunAction::ReadUsage(_)));
    assert!(manager.begin(&mut pool, &ledger, 129_999).is_none());
    let (action, _) =
        run.step(RunEvent::Usage(Some(usage(false, 1))), &mut manager, &ledger, &mut pool, 100_001);
    assert!(matches!(action, RunAction::ReadCredits(_)));
    let list = vec![
        credit("later", None),
        credit("credit-1", Some("2026-12-01T00:00:00Z")),
        Credit { status: "spent".into(), ..credit("spent", Some("2020-01-01T00:00:00Z")) },
    ];
    let (action, _) =
        run.step(RunEvent::Credits(Some(list)), &mut manager, &ledger, &mut pool, 100_002);
    match action {
        RunAction::Save { account_id, credit_id, request_id } => {
            assert_eq!((account_id.as_str(), credit_id.as_str()), ("account-1", "credit-1"));
            ledger.push(LedgerRow {
                account_id,
                credit_id,
                request_id,
                state: "pending".into(),
            });
        }
        other => panic!("expected a stored redemption, got {other:?}"),
    }
    let snapshot = manager.snapshot("account-1").unwrap();
    assert_eq!(snapshot.credit_expirations, vec![None, Some(1_796_083_200_000)]);
    let (action, _) = run.step(RunEvent::Saved, &mut manager, &ledger, &mut pool, 100_003);
    match action {
        RunAction::Redeem { credit_id, redemption_id, .. } => {
            assert_eq!(credit_id, "credit-1");
            assert_eq!(redemption_id, ledger[0].request_id);
        }
        other => panic!("expected a redemption, got {other:?}"),
    }
    let (action, effects) = run.step(
        RunEvent::Consumed(Some(ConsumeCode::Reset)),
        &mut manager,
        &ledger,
        &mut pool,
        100_004,
    );
    assert!(matches!(action, RunAction::ReadUsage(_)));
    assert!(effects.complete);
    let (action, _) = run.step(RunEvent::Usage(None), &mut manager, &ledger, &mut pool, 100_005);
    assert!(matches!(action, RunAction::Recheck(_)));
    let (action, effects) =
        run.step(RunEvent::Usage(Some(usage(true, 0))), &mut manager, &ledger, &mut pool, 100_006);
    assert!(matches!(action, RunAction::Done(true)));
    assert_eq!(effects, RunEffects { readmit: true, clear: true, complete: false });
    assert_eq!(pool.account("account-1").unwrap().status, AccountStatus::Healthy);
    assert!(manager.begin(&mut pool, &Vec::new(), 500_000).is_none());
}

#[test]
fn uncertain_redemption_is_retried_under_its_key() {
    let mut pool = pool(vec![
        account("account-1", AccountStatus::Cooling, 3_600_000),
        account("account-2", AccountStatus::Cooling, 9_600_000),
    ]);
    let mut manager = ResetManager::new("http://host", true);
    let ledger = vec![row("pending")];
    let (mut run, _) = manager.begin(&mut pool, &ledger, 100_000).unwrap();
    assert_eq!(run.considered(), 1);
    assert_eq!(run.current().id, "account-1");
    let (action, _) =
        run.step(RunEvent::Usage(Some(usage(false, 1))), &mut manager, &ledger, &mut pool, 1);
    match action {
        RunAction::Redeem { credit_id, redemption_id, .. } => {
            assert_eq!((credit_id.as_str(), redemption_id.as_str()), ("credit-1", "key-1"))
        }
        other => panic!("expected a redemption, got {other:?}"),
    }
    let (action, effects) =
        run.step(RunEvent::Consumed(None), &mut manager, &ledger, &mut pool, 2);
    assert!(matches!(action, RunAction::Done(false)));
    assert_eq!(effects, RunEffects { readmit: false, clear: false, complete: false });
    assert_eq!(pool.account("account-1").unwrap().status, AccountStatus::Cooling);
}

#[test]
fn completed_redemption_spends_no_second_credit() {
    let mut pool = pool(vec![account("account-1", AccountStatus::Cooling, 3_600_000)]);
    let mut manager = ResetManager::new("http://host", true);
    let ledger = vec![row("completed")];
    let (mut run, _) = manager.begin(&mut pool, &ledger, 100_000).unwrap();
    let (action, _) =
        run.step(RunEvent::Usage(Some(usage(false, 5))), &mut manager, &ledger, &mut pool, 1);
    assert!(matches!(action, RunAction::Done(false)));
}

#[test]
fn refused_redemption_is_forgotten() {
    for code in [ConsumeCode::NothingToReset, ConsumeCode::NoCredit] {
        let mut pool = pool(vec![account("account-1", AccountStatus::Cooling, 3_600_000)]);
        let mut manager = ResetManager::new("http://host", true);
        let ledger = vec![row("pending")];
        let (mut run, _) = manager.begin(&mut pool, &ledger, 100_000).unwrap();
        run.step(RunEvent::Usage(Some(usage(false, 1))), &mut manager, &ledger, &mut pool, 1);
        let (action, effects) =
            run.step(RunEvent::Consumed(Some(code)), &mut manager, &ledger, &mut pool, 2);
        assert!(matches!(action, RunAction::Done(false)));
        assert!(effects.clear && !effects.complete);
    }
}

#[test]
fn three_failed_confirmations_end_the_search() {
    let mut pool = pool(vec![account("account-1", AccountStatus::Cooling, 3_600_000)]);
    let mut manager = ResetManager::new("http://host", true);
    let ledger = vec![row("pending")];
    let (mut run, _) = manager.begin(&mut pool, &ledger, 100_000).unwrap();
    run.step(RunEvent::Usage(Some(usage(false, 1))), &mut manager, &ledger, &mut pool, 1);
    run.step(
        RunEvent::Consumed(Some(ConsumeCode::AlreadyRedeemed)),
        &mut manager,
        &ledger,
        &mut pool,
        2,
    );
    for _ in 0..2 {
        let (action, _) =
            run.step(RunEvent::Usage(Some(usage(false, 1))), &mut manager, &ledger, &mut pool, 3);
        assert!(matches!(action, RunAction::Recheck(_)));
    }
    let (action, _) =
        run.step(RunEvent::Usage(Some(usage(false, 1))), &mut manager, &ledger, &mut pool, 4);
    assert!(matches!(action, RunAction::Done(false)));
    assert_eq!(pool.account("account-1").unwrap().status, AccountStatus::Cooling);
}

#[test]
fn nothing_is_redeemed_without_an_outage() {
    let mut manager = ResetManager::new("http://host", true);
    let mut healthy = pool(vec![
        account("a", AccountStatus::Cooling, 3_600_000),
        account("b", AccountStatus::Healthy, 0),
    ]);
    assert!(manager.begin(&mut healthy, &Vec::new(), 100_000).is_none());
    let mut off = pool(vec![account("a", AccountStatus::Disabled, 0)]);
    assert!(manager.begin(&mut off, &Vec::new(), 100_000).is_none());
    let mut lapsed = pool(vec![account("a", AccountStatus::Cooling, 99_999)]);
    assert!(manager.begin(&mut lapsed, &Vec::new(), 100_000).is_none());
    assert!(lapsed.account("a").unwrap().healthy());
    let mut disabled = ResetManager::new("http://host", false);
    let mut out = pool(vec![account("a", AccountStatus::Cooling, 3_600_000)]);
    assert!(disabled.begin(&mut out, &Vec::new(), 100_000).is_none());
}

#[test]
fn pool_that_changed_meanwhile_redeems_nothing() {
    let mut pool = pool(vec![
        account("account-1", AccountStatus::Cooling, 3_600_000),
        account("account-2", AccountStatus::Cooling, 3_600_000),
    ]);
    let mut manager = ResetManager::new("http://host", true);
    let ledger = Vec::new();
    let (mut run, _) = manager.begin(&mut pool, &ledger, 100_000).unwrap();
    run.step(RunEvent::Usage(None), &mut manager, &ledger, &mut pool, 1);
    run.step(RunEvent::Usage(Some(usage(false, 1))), &mut manager, &ledger, &mut pool, 1);
    pool.set_status("account-1", AccountStatus::Healthy, 0);
    pool.set_status("account-2", AccountStatus::Healthy, 0);
    let (action, _) = run.step(
        RunEvent::Credits(Some(vec![credit("c", None)])),
        &mut manager,
        &ledger,
        &mut pool,
        2,
    );
    assert!(matches!(action, RunAction::Done(false)));
}

#[test]
fn report_on_another_account_is_refused() {
    let mut manager = ResetManager::new("http://host", true);
    let a = account("account-1", AccountStatus::Healthy, 0);
    let mut other = usage(true, 2);
    other.account_id = Some("someone-else".into());
    assert!(manager.take_usage(&a, other, 5).is_none());
    assert!(manager.snapshot("account-1").is_none());
    let mut anonymous = usage(true, -3);
    anonymous.account_id = None;
    let s = manager.take_usage(&a, anonymous, 5).unwrap();
    assert_eq!((s.available_resets, s.fetched_at_ms), (0, 5));
}

#[test]
fn credits_stay_known_while_there_are_some() {
    let mut manager = ResetManager::new("http://host", true);
    let a = account("account-1", AccountStatus::Healthy, 0);
    manager.take_usage(&a, usage(false, 2), 5).unwrap();
    let found = manager.take_credits("account-1", &vec![credit("c", Some("1970-01-01T00:00:10+00:00"))]);
    assert_eq!(found.len(), 1);
    assert_eq!(
        manager.take_usage(&a, usage(false, 1), 6).unwrap().credit_expirations,
        vec![Some(10_000)]
    );
    assert!(manager.take_usage(&a, usage(false, 0), 7).unwrap().credit_expirations.is_empty());
}

#[test]
fn credit_ends() {
    assert_eq!(expiry_ms(Some("1970-01-01T01:00:01+01:00")), Some(1_000));
    assert_eq!(expiry_ms(Some("1969-12-31T23:59:59.5Z")), Some(-1_000));
    assert_eq!(expiry_ms(Some("tomorrow")), None);
    assert_eq!(expiry_ms(None), None);
    let list = vec![
        credit("a", None),
        credit("b", Some("2026-12-01T00:00:00Z")),
        credit("c", Some("2026-12-01T00:00:00Z")),
    ];
    assert_eq!(soonest_credit(&list).unwrap().id, "b");
    assert!(soonest_credit(&Vec::new()).is_none());
    let other = Credit { reset_type: "other".into(), ..credit("x", None) };
    assert_eq!(usable_credits(&vec![other, credit("y", None)]).len(), 1);
}

fn snapshot(l: Option<RateLimit>, resets: i64) -> UsageSnapshot {
    UsageSnapshot {
        rate_limit: l,
        available_resets: resets,
        credit_expirations: Vec::new(),
        fetched_at_ms: 0,
    }
}

#[test]
fn polls_move_health_as_documented() {
    let blocked = snapshot(Some(limit(Some(false), window(100, 100), None)), 1);
    let open = snapshot(Some(limit(Some(true), window(100, 0), None)), 0);
    let mut p = pool(vec![account("a", AccountStatus::Healthy, 0)]);
    let e = apply_poll(&mut p, "a", &blocked, 0);
    assert_eq!(e.status, Some((AccountStatus::Cooling, 100_000)));
    assert!(e.read_credits && !e.clear_attempt);
    let e = apply_poll(&mut p, "a", &snapshot(Some(limit(Some(false), window(90, 100), None)), 0), 0);
    assert_eq!(e.status, None);
    let e = apply_poll(&mut p, "a", &snapshot(Some(limit(Some(false), window(200, 100), None)), 0), 0);
    assert_eq!(e.status, Some((AccountStatus::Cooling, 200_000)));
    assert_eq!(apply_poll(&mut p, "a", &snapshot(None, 0), 0).status, None);
    let e = apply_poll(&mut p, "a", &open, 0);
    assert_eq!(e.status, Some((AccountStatus::Healthy, 0)));
    assert!(e.clear_attempt);
    assert_eq!(apply_poll(&mut p, "nobody", &open, 0).status, None);
    p.set_status("a", AccountStatus::AuthError, 0);
    assert_eq!(apply_poll(&mut p, "a", &open, 0).status, None);
    assert_eq!(apply_poll(&mut p, "a", &blocked, 0).status, None);
}

#[test]
fn status_changes_only_as_expected() {
    let mut p = pool(vec![account("a", AccountStatus::Cooling, 5)]);
    assert!(!set_status_if(&mut p, "a", AccountStatus::Healthy, AccountStatus::Disabled, 0));
    assert!(set_status_if(&mut p, "a", AccountStatus::Cooling, AccountStatus::Healthy, 0));
    assert!(!set_status_if(&mut p, "x", AccountStatus::Cooling, AccountStatus::Healthy, 0));
    assert!(p.account("a").unwrap().healthy());
    assert!(is_polled(&account("a", AccountStatus::AuthError, 0)));
    assert!(!is_polled(&account("a", AccountStatus::Disabled, 0)));
}

/// The service that redeems credits, and what is stored of it.
struct Service {
    allowed: bool,
    has_credit: bool,
    fail_once: bool,
    redemption_ids: Vec<String>,
    ledger: Vec<LedgerRow>,
}

impl Service {
    fn consume(&mut self, credit_id: &str, redemption_id: &str) -> Option<ConsumeCode> {
        assert_eq!(credit_id, "credit-1");
        assert!(!redemption_id.is_empty());
        self.redemption_ids.push(redemption_id.to_string());
        if self.fail_once {
            self.fail_once = false;
            return None;
        }
        self.allowed = true;
        Some(ConsumeCode::Reset)
    }

    /// A search for a reset, from its beginning to its end.
    fn maybe_reset(&mut self, manager: &mut ResetManager, pool: &mut PoolCore, now: i64) -> bool {
        let Some((mut run, mut action)) = manager.begin(pool, &self.ledger, now) else {
            return false;
        };
        loop {
            let event = match action {
                RunAction::Done(recovered) => return recovered,
                RunAction::ReadUsage(_) | RunAction::Recheck(_) => {
                    let credits = i64::from(!self.allowed && self.has_credit);
                    RunEvent::Usage(Some(usage(self.allowed, credits)))
                }
                RunAction::ReadCredits(_) => RunEvent::Credits(Some(if self.has_credit {
                    vec![credit("credit-1", Some("2026-12-01T00:00:00Z"))]
                } else {
                    Vec::new()
                })),
                RunAction::Save { account_id, credit_id, request_id } => {
                    if !self.ledger.iter().any(|r| r.account_id == account_id) {
                        let state = "pending".to_string();
                        self.ledger.push(LedgerRow { account_id, credit_id, request_id, state });
                    }
                    RunEvent::Saved
                }
                RunAction::Redeem { credit_id, redemption_id, .. } => {
                    RunEvent::Consumed(self.consume(&credit_id, &redemption_id))
                }
            };
            let (next, effects) = run.step(event, manager, &self.ledger, pool, now);
            let id = run.current().id.clone();
            if effects.complete {
                for row in self.ledger.iter_mut().filter(|r| r.account_id == id) {
                    row.state = "completed".into();
                }
            }
            if effects.clear {
                self.ledger.retain(|r| r.account_id != id);
            }
            action = next;
        }
    }
}

#[test]
fn concurrent_outage_requests_redeem_once_and_readmit() {
    let mut pool = pool(vec![account("account-1", AccountStatus::Cooling, 3_700_000)]);
    let mut service = Service {
        allowed: false,
        has_credit: true,
        fail_once: false,
        redemption_ids: Vec::new(),
        ledger: Vec::new(),
    };
    let mut manager = ResetManager::new("http://host", true);
    let first = service.maybe_reset(&mut manager, &mut pool, 100_000);
    let second = service.maybe_reset(&mut manager, &mut pool, 100_000);
    assert!(first && !second);
    assert_eq!(service.redemption_ids.len(), 1);
    assert_eq!(pool.account("account-1").unwrap().status, AccountStatus::Healthy);
    assert!(service.ledger.is_empty());
    assert!(!service.maybe_reset(&mut manager, &mut pool, 200_000));

    service.allowed = false;
    service.fail_once = true;
    let until = 300_000 + 3_600_000;
    assert!(set_status_if(
        &mut pool,
        "account-1",
        AccountStatus::Healthy,
        AccountStatus::Cooling,
        until
    ));
    let mut failed = ResetManager::new("http://host", true);
    assert!(!service.maybe_reset(&mut failed, &mut pool, 300_000));
    assert_eq!(service.ledger.len(), 1);
    let mut restarted = ResetManager::new("http://host", true);
    assert!(service.maybe_reset(&mut restarted, &mut pool, 300_000));
    assert_eq!(
        service.redemption_ids[1], service.redemption_ids[2],
        "retry must reuse the persisted idempotency key"
    );

    service.allowed = false;
    service.has_credit = false;
    assert!(set_status_if(
        &mut pool,
        "account-1",
        AccountStatus::Healthy,
        AccountStatus::Cooling,
        until
    ));
    let mut no_credit = ResetManager::new("http://host", true);
    assert!(!service.maybe_reset(&mut no_credit, &mut pool, 300_000));
    assert_eq!(service.redemption_ids.len(), 3);
    assert_eq!(pool.account("account-1").unwrap().status, AccountStatus::Cooling);
}
