use underclass::models::{Account, AccountStatus, BackendId, Binding, ModelInfo, Outcome};
use underclass::pool::{
    Decision, PoolCore, SelectError, Selection, BINDING_TTL_MS, DEFAULT_BINDING_CAP,
};

fn account(id: &str, backend: BackendId) -> Account {
    Account {
        id: id.into(),
        backend,
        label: id.into(),
        refresh_token: None,
        access_token: None,
        expires_at: 0,
        token_refreshed_at: 0,
        account_id: None,
        residency: None,
        enterprise_url: None,
        status: AccountStatus::Healthy,
        reset_at: 0,
        created_at: 0,
        updated_at: 0,
    }
}

fn empty_core() -> PoolCore {
    PoolCore::new(Vec::new(), Vec::new(), &Vec::new(), &Vec::new())
}

fn core_with(backends: &[(BackendId, &[&str], &[&str])]) -> PoolCore {
    let mut core = empty_core();
    for (backend, models, ids) in backends {
        core.set_catalog(*backend, models.iter().map(|s| s.to_string()).collect());
        for id in *ids {
            core.insert_account(account(id, *backend));
        }
    }
    core
}

fn build(backend_spread: usize, account_count: usize) -> (PoolCore, Vec<String>) {
    let mut core = empty_core();
    let models: Vec<String> = vec!["gpt-5.5".into(), "gpt-4.1".into()];
    core.set_catalog(BackendId::Codex, models.clone());
    if backend_spread > 1 {
        core.set_catalog(BackendId::Copilot, models.clone());
    }
    let mut accounts = Vec::new();
    for i in 0..account_count.max(1) {
        let backend = if backend_spread > 1 && i % backend_spread != 0 {
            BackendId::Copilot
        } else {
            BackendId::Codex
        };
        let id = format!("acc-{i}");
        core.insert_account(account(&id, backend));
        accounts.push(id);
    }
    (core, accounts)
}

/// A fixed sequence of numbers that looks random.
struct Numbers(u64);

impl Numbers {
    fn next(&mut self, below: u64) -> u64 {
        self.0 = self.0.wrapping_mul(6364136223846793005).wrapping_add(1442695040888963407);
        (self.0 >> 33) % below
    }
}

#[test]
fn sticky_key_pins_to_one_account() {
    let mut core = core_with(&[(BackendId::Codex, &["gpt-5.5"], &["a", "b"])]);
    let s1 = core.select(0, Some("k1"), "gpt-5.5").unwrap();
    let s2 = core.select(1, Some("k1"), "gpt-5.5").unwrap();
    assert_eq!(s1.account_id, s2.account_id);
    assert_eq!(s2.decision, Decision::StickyHit);
}

#[test]
fn sticky_rebinds_within_same_backend_when_cooling() {
    let mut core = core_with(&[
        (BackendId::Codex, &["gpt-5.5"], &["a", "b"]),
        (BackendId::Copilot, &["gpt-5.5"], &["c"]),
    ]);
    let first = core.select(0, Some("k"), "gpt-5.5").unwrap();
    core.report(&first.account_id, Outcome::QuotaExhausted { until_ms: 10_000 });
    let second = core.select(1, Some("k"), "gpt-5.5").unwrap();
    assert_ne!(second.account_id, first.account_id);
    assert_eq!(second.backend, BackendId::Codex);
    assert_eq!(second.decision, Decision::StickyRebind);
}

#[test]
fn selection_never_returns_unhealthy_accounts() {
    let mut core = core_with(&[(BackendId::Codex, &["gpt-5.5"], &["a"])]);
    core.report("a", Outcome::QuotaExhausted { until_ms: 100 });
    assert!(matches!(
        core.select(50, Some("k"), "gpt-5.5"),
        Err(SelectError::Saturated { until_ms: 100 })
    ));
    assert!(matches!(core.select(150, Some("k"), "gpt-5.5"), Ok(Selection { .. })));
}

#[test]
fn unknown_model_routes_to_codex_pass_through() {
    let mut core = core_with(&[(BackendId::Copilot, &["gpt-4.1"], &["c"])]);
    core.insert_account(account("a", BackendId::Codex));
    let s = core.select(0, Some("k"), "totally-unknown-model").unwrap();
    assert_eq!(s.backend, BackendId::Codex);
    assert_eq!(s.account_id, "a");
}

#[test]
fn model_eligibility_respects_catalog() {
    let mut core = core_with(&[
        (BackendId::Codex, &["gpt-5.5"], &["a"]),
        (BackendId::Copilot, &["gpt-4.1"], &["c"]),
    ]);
    let s = core.select(0, None, "gpt-4.1").unwrap();
    assert_eq!(s.backend, BackendId::Copilot);
}

#[test]
fn least_in_flight_is_preferred() {
    let mut core = core_with(&[(BackendId::Codex, &["gpt-5.5"], &["a", "b"])]);
    core.acquire("a");
    core.acquire("a");
    let s = core.select(0, None, "gpt-5.5").unwrap();
    assert_eq!(s.account_id, "b");
    core.release("a");
    core.release("a");
}

#[test]
fn in_flight_never_goes_negative() {
    let mut core = core_with(&[(BackendId::Codex, &["gpt-5.5"], &["a"])]);
    core.release("a");
    core.release("a");
    assert_eq!(core.inflight("a"), Some(0));
}

#[test]
fn saturation_reports_earliest_reset() {
    let mut core = core_with(&[(BackendId::Codex, &["gpt-5.5"], &["a", "b"])]);
    core.report("a", Outcome::QuotaExhausted { until_ms: 500 });
    core.report("b", Outcome::QuotaExhausted { until_ms: 300 });
    match core.select(100, Some("k"), "gpt-5.5") {
        Err(SelectError::Saturated { until_ms }) => assert_eq!(until_ms, 300),
        other => panic!("expected saturated, got {other:?}"),
    }
}

#[test]
fn no_accounts_error_when_nothing_configured() {
    let mut core = core_with(&[]);
    assert!(matches!(core.select(0, Some("k"), "gpt-5.5"), Err(SelectError::NoAccounts)));
}

#[test]
fn unsticky_requests_do_not_bind() {
    let mut core = core_with(&[(BackendId::Codex, &["gpt-5.5"], &["a"])]);
    let s = core.select(0, None, "gpt-5.5").unwrap();
    assert_eq!(s.decision, Decision::Unsticky);
    assert!(core.bindings().is_empty());
}

#[test]
fn new_binding_created_for_sticky_request_on_miss() {
    let mut core = core_with(&[(BackendId::Codex, &["gpt-5.5"], &["a"])]);
    let s = core.select(0, Some("k"), "gpt-5.5").unwrap();
    assert_eq!(s.decision, Decision::NewBinding);
    assert_eq!(core.bindings().len(), 1);
    assert_eq!(core.bindings()[0].cache_key, "k");
    assert_eq!(core.bindings()[0].account_id, "a");
}

#[test]
fn test_stickiness_is_stable_while_healthy() {
    for account_count in 1..=6 {
        let (mut core, _) = build(2, account_count);
        let mut numbers = Numbers(account_count as u64);
        let mut bindings: std::collections::HashMap<String, String> = Default::default();
        for now in 1..=60i64 {
            let key = format!("key-{}", numbers.next(12));
            let sel = core.select(now, Some(&key), "gpt-5.5").unwrap();
            match bindings.get(&key) {
                Some(previous) => assert_eq!(*previous, sel.account_id),
                None => {
                    bindings.insert(key, sel.account_id.clone());
                }
            }
        }
    }
}

#[test]
fn test_selection_never_returns_unhealthy() {
    for account_count in 1..=8usize {
        let (mut core, accounts) = build(2, account_count);
        let mut numbers = Numbers(7 + account_count as u64);
        for now in 1..=80i64 {
            let id = accounts[numbers.next(8) as usize % accounts.len()].clone();
            match numbers.next(4) {
                0 => {
                    core.report(&id, Outcome::QuotaExhausted { until_ms: now + 500 });
                }
                1 => {
                    core.report(&id, Outcome::AuthFailed);
                }
                2 => core.set_status(&id, AccountStatus::Disabled, 0),
                _ => {
                    core.report(&id, Outcome::QuotaExhausted { until_ms: now + 100 });
                    core.sweep(now + 101);
                }
            }
            if let Ok(sel) = core.select(now, Some("k"), "gpt-5.5") {
                assert!(core.account(&sel.account_id).unwrap().healthy());
            }
        }
    }
}

#[test]
fn test_saturation_reports_minimum_reset() {
    let (mut core, accounts) = build(1, 4);
    for (id, reset) in accounts.iter().zip([900, 40, 7_000, 333]) {
        core.report(id, Outcome::QuotaExhausted { until_ms: reset });
    }
    match core.select(0, Some("k"), "gpt-5.5") {
        Err(SelectError::Saturated { until_ms }) => assert_eq!(until_ms, 40),
        other => panic!("expected saturated, got {other:?}"),
    }
}

#[test]
fn test_cooling_expiry_restores_health() {
    let (mut core, accounts) = build(1, 3);
    let mut now = 0i64;
    for (i, cooldown) in [1i64, 250, 1000, 3, 77].iter().enumerate() {
        now += cooldown;
        let id = &accounts[i % accounts.len()];
        core.report(id, Outcome::QuotaExhausted { until_ms: now });
        assert_eq!(core.sweep(now), vec![id.clone()]);
        let state = core.account(id).unwrap();
        assert!(state.healthy(), "account still cooling after reset passed");
        assert_eq!(state.reset_at, 0);
    }
}

#[test]
fn test_unknown_models_still_routable_via_codex() {
    let (mut core, _) = build(2, 5);
    for (now, model) in ["x", "other-model", "gpt-5.5 ", "GPT-5.5"].iter().enumerate() {
        let sel = core.select(now as i64, None, model).unwrap();
        assert_eq!(sel.backend, BackendId::Codex);
    }
}

#[test]
fn test_bindings_respect_ttl_and_cap() {
    let (mut core, _) = build(1, 2);
    let mut now = 0i64;
    for i in 0..30 {
        now += 3_600_000;
        let _ = core.select(now, Some(&format!("key-{i}")), "gpt-5.5");
        assert!(core.bindings().len() <= DEFAULT_BINDING_CAP, "binding cache exceeded cap");
    }
    core.sweep(now + BINDING_TTL_MS + 1);
    assert!(core.bindings().is_empty(), "expired bindings not evicted");
}

#[test]
fn test_inflight_stays_nonnegative() {
    let (mut core, accounts) = build(2, 3);
    let mut numbers = Numbers(3);
    for _ in 0..100 {
        let id = &accounts[numbers.next(3) as usize];
        if numbers.next(2) == 0 {
            core.acquire(id);
        } else {
            core.release(id);
        }
        assert!(core.inflight(id).unwrap() < u32::MAX);
    }
    assert_eq!(core.inflight("nobody"), None);
}

#[test]
fn release_undoes_acquire() {
    let (mut core, accounts) = build(1, 1);
    core.acquire(&accounts[0]);
    core.acquire(&accounts[0]);
    core.release(&accounts[0]);
    assert_eq!(core.inflight(&accounts[0]), Some(1));
    core.acquire("nobody");
    assert_eq!(core.inflight("nobody"), None);
}

#[test]
fn a_used_session_does_not_shield_an_expired_one() {
    let mut core = core_with(&[(BackendId::Codex, &["m"], &["a"])]);
    core.select(0, Some("old"), "m").unwrap();
    core.select(BINDING_TTL_MS - 10, Some("young"), "m").unwrap();
    core.select(BINDING_TTL_MS - 5, Some("old"), "m").unwrap();
    core.sweep(BINDING_TTL_MS + 1);
    let keys: Vec<String> = core.bindings().into_iter().map(|b| b.cache_key).collect();
    assert_eq!(keys, vec!["young".to_string()]);
}

#[test]
fn sticky_session_expires_exactly_after_its_lifetime() {
    let mut core = core_with(&[(BackendId::Codex, &["m"], &["a"])]);
    core.select(0, Some("k"), "m").unwrap();
    assert_eq!(core.select(BINDING_TTL_MS, Some("k"), "m").unwrap().decision, Decision::StickyHit);
    assert_eq!(
        core.select(BINDING_TTL_MS + 1, Some("k"), "m").unwrap().decision,
        Decision::NewBinding
    );
}

#[test]
fn bindings_list_most_recently_used_first() {
    let mut core = core_with(&[(BackendId::Codex, &["m"], &["a"])]);
    for (i, key) in ["x", "y", "z"].iter().enumerate() {
        core.select(i as i64, Some(key), "m").unwrap();
    }
    core.select(3, Some("x"), "m").unwrap();
    let keys: Vec<String> = core.bindings().into_iter().map(|b| b.cache_key).collect();
    assert_eq!(keys, vec!["x".to_string(), "z".to_string(), "y".to_string()]);
    assert_eq!(core.bindings()[0].bound_at, 0);
}

#[test]
fn full_cache_forgets_least_recently_used_session() {
    let mut core = core_with(&[(BackendId::Codex, &["m"], &["a"])]);
    for i in 0..DEFAULT_BINDING_CAP {
        core.select(0, Some(&format!("key-{i}")), "m").unwrap();
    }
    core.select(0, Some("key-0"), "m").unwrap();
    core.select(0, Some("one-more"), "m").unwrap();
    let keys: Vec<String> = core.bindings().into_iter().map(|b| b.cache_key).collect();
    assert_eq!(keys.len(), DEFAULT_BINDING_CAP);
    assert_eq!(keys[0], "one-more");
    assert_eq!(keys[1], "key-0");
    assert!(!keys.contains(&"key-1".to_string()));
}

#[test]
fn stored_state_is_loaded() {
    let model = ModelInfo {
        id: "m".into(),
        name: "M".into(),
        context: 1,
        input: 1,
        output: 1,
    };
    let bindings = vec![
        Binding {
            cache_key: "k".into(),
            account_id: "b".into(),
            backend: BackendId::Codex,
            bound_at: 5,
        },
        Binding {
            cache_key: "lost".into(),
            account_id: "gone".into(),
            backend: BackendId::Codex,
            bound_at: 6,
        },
    ];
    let mut core = PoolCore::new(
        vec![account("a", BackendId::Codex), account("b", BackendId::Codex)],
        bindings,
        &vec![model],
        &Vec::new(),
    );
    assert_eq!(core.account_count(), 2);
    assert!(core.serves(BackendId::Codex, "m"));
    assert!(!core.serves(BackendId::Copilot, "m"));
    assert_eq!(core.bindings().len(), 1);
    let s = core.select(10, Some("k"), "m").unwrap();
    assert_eq!((s.account_id.as_str(), s.decision), ("b", Decision::StickyHit));
    let s = core.select(10, Some("lost"), "m").unwrap();
    assert_eq!((s.account_id.as_str(), s.decision), ("a", Decision::StickyRebind));
}

#[test]
fn reports_change_status_as_documented() {
    let mut core = core_with(&[(BackendId::Codex, &["m"], &["a"])]);
    assert_eq!(core.report("a", Outcome::Success), None);
    assert_eq!(core.report("a", Outcome::Transient), None);
    assert!(core.account("a").unwrap().healthy());
    assert_eq!(
        core.report("a", Outcome::QuotaExhausted { until_ms: 9 }),
        Some(AccountStatus::Cooling)
    );
    assert_eq!(core.account("a").unwrap().reset_at, 9);
    assert_eq!(core.report("a", Outcome::AuthFailed), Some(AccountStatus::AuthError));
    assert_eq!(core.account("a").unwrap().reset_at, 0);
    assert_eq!(core.report("nobody", Outcome::AuthFailed), None);
}

#[test]
fn synced_accounts_keep_requests_in_flight() {
    let mut core = core_with(&[(BackendId::Codex, &["m"], &["a"])]);
    core.acquire("a");
    let mut cooled = account("a", BackendId::Codex);
    cooled.status = AccountStatus::Cooling;
    cooled.reset_at = 50;
    let mut cooling = account("b", BackendId::Codex);
    cooling.status = AccountStatus::Cooling;
    cooling.reset_at = 500;
    let lapsed = core.sync_from_store(vec![cooled, cooling.clone()], 100);
    assert_eq!(lapsed, vec!["a".to_string()]);
    assert_eq!(core.inflight("a"), Some(1));
    assert!(core.account("a").unwrap().healthy());
    assert_eq!(core.account("b").unwrap().status, AccountStatus::Cooling);
    core.drop_unknown(&vec![cooling]);
    assert_eq!(core.account_count(), 2);
}

#[test]
fn removed_account_takes_its_sessions_along() {
    let mut core = core_with(&[(BackendId::Codex, &["m"], &["a", "b"])]);
    core.select(0, Some("k"), "m").unwrap();
    core.acquire("a");
    core.select(0, Some("l"), "m").unwrap();
    core.remove_account("a");
    assert!(core.account("a").is_none());
    let left: Vec<String> = core.bindings().into_iter().map(|b| b.cache_key).collect();
    assert_eq!(left, vec!["l".to_string()]);
    assert_eq!(core.select(1, Some("k"), "m").unwrap().account_id, "b");
}

#[test]
fn select_errors_in_words() {
    assert_eq!(
        SelectError::Saturated { until_ms: -12 }.message(),
        "all eligible accounts are cooling until -12"
    );
    assert_eq!(SelectError::NoAccounts.message(), "no accounts configured for this model");
}

#[test]
fn test_rebinding_stays_stable_after_rebind() {
    for account_count in 2..=6usize {
        for seed in 0..20u64 {
            let (mut core, _) = build(2, account_count);
            let mut numbers = Numbers(seed * 100 + account_count as u64);
            let key = "session-key";
            let mut current: Option<String> = None;
            let mut rebound: Option<String> = None;
            for now in 1..=30i64 {
                match numbers.next(3) {
                    0 => {
                        if let Ok(sel) = core.select(now, Some(key), "gpt-5.5") {
                            current = Some(sel.account_id);
                        }
                    }
                    1 => {
                        if let Some(id) = &current {
                            core.report(id, Outcome::QuotaExhausted { until_ms: now + 100_000 });
                            rebound = None;
                        }
                    }
                    _ => {
                        if let Ok(sel) = core.select(now, Some(key), "gpt-5.5") {
                            if let Some(old) = &current {
                                if old != &sel.account_id {
                                    assert!(
                                        !core.account(old).unwrap().healthy(),
                                        "binding changed while previous account was still healthy"
                                    );
                                    match &rebound {
                                        Some(first_rebind) => assert_eq!(
                                            *first_rebind, sel.account_id,
                                            "unstable rebinding"
                                        ),
                                        None => rebound = Some(sel.account_id.clone()),
                                    }
                                }
                            }
                            current = Some(sel.account_id);
                        }
                    }
                }
            }
        }
    }
}

#[test]
fn sessions_do_not_disturb_each_other() {
    let (mut core, _) = build(2, 4);
    let first = core.select(1, Some("a"), "gpt-5.5").unwrap();
    let before: Vec<Binding> = core.bindings();
    for i in 0..50 {
        let key = format!("other-{i}");
        core.select(2 + i, Some(&key), "gpt-5.5").unwrap();
        core.select(2 + i, None, "gpt-5.5").unwrap();
    }
    let after = core.bindings();
    let kept = after.iter().find(|b| b.cache_key == "a").unwrap();
    assert_eq!((kept.account_id.as_str(), kept.bound_at), (first.account_id.as_str(), 1));
    assert_eq!(before.len(), 1);
    assert_eq!(after.len(), 51);
}
