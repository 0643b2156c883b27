use underclass::codex::{Claims, TokenResponse};
use underclass::models::{Account, AccountStatus, BackendId};
use underclass::tokens::{
    access_plan, due_accounts, renew_plan, rotation_due, token_update, RenewPlan, TokenError,
    TokenPlan, PROACTIVE_REFRESH_MARGIN_MS, ROTATION_INTERVAL_MS,
};

fn account(backend: BackendId, refresh_token: Option<&str>, refreshed_at: i64) -> Account {
    Account {
        id: "acct".into(),
        backend,
        label: "owner@example.test".into(),
        refresh_token: refresh_token.map(str::to_string),
        access_token: Some("access".into()),
        expires_at: i64::MAX,
        token_refreshed_at: refreshed_at,
        account_id: None,
        residency: None,
        enterprise_url: None,
        status: AccountStatus::Healthy,
        reset_at: 0,
        created_at: 0,
        updated_at: refreshed_at,
    }
}

const DAY: i64 = 24 * 60 * 60 * 1000;

#[test]
fn codex_is_due_once_the_interval_elapses() {
    let due = account(BackendId::Codex, Some("refresh"), 1_000);
    assert!(!rotation_due(&due, 1_000 + DAY - 1));
    assert!(rotation_due(&due, 1_000 + DAY));
    assert!(rotation_due(&due, 1_000 + 10 * DAY));
}

#[test]
fn never_rotated_codex_is_due_on_first_run() {
    let never = account(BackendId::Codex, Some("refresh"), 0);
    assert!(rotation_due(&never, 1_800_000_000_000));
    assert!(!rotation_due(&never, 0));
}

#[test]
fn copilot_and_credential_less_accounts_are_never_due() {
    assert!(!rotation_due(&account(BackendId::Copilot, Some("gh-token"), 0), i64::MAX));
    assert!(!rotation_due(&account(BackendId::Codex, None, 0), i64::MAX));
}

#[test]
fn a_clock_behind_the_last_rotation_is_not_due() {
    let due = account(BackendId::Codex, Some("refresh"), 10 * DAY);
    assert!(!rotation_due(&due, 0), "saturating_sub must not wrap into a false due");
}

#[test]
fn due_accounts_are_listed() {
    assert_eq!(ROTATION_INTERVAL_MS, DAY);
    let list = vec![
        account(BackendId::Codex, Some("a"), DAY),
        account(BackendId::Copilot, Some("b"), 0),
        account(BackendId::Codex, Some("c"), 0),
    ];
    let due = due_accounts(&list, DAY);
    assert_eq!(due.len(), 1);
    assert_eq!(due[0].refresh_token.as_deref(), Some("c"));
}

#[test]
fn cached_token_is_used_until_the_margin() {
    let mut a = account(BackendId::Codex, Some("r"), 0);
    a.expires_at = 1_000_000;
    let edge = 1_000_000 - PROACTIVE_REFRESH_MARGIN_MS;
    match access_plan(&a, edge - 1) {
        TokenPlan::Use(t) => assert_eq!(t, "access"),
        other => panic!("expected the cached token, got {other:?}"),
    }
    assert!(matches!(access_plan(&a, edge), TokenPlan::Renew));
    a.access_token = None;
    assert!(matches!(access_plan(&a, 0), TokenPlan::Renew));
    match access_plan(&account(BackendId::Copilot, Some("gh"), 0), i64::MAX) {
        TokenPlan::Use(t) => assert_eq!(t, "gh"),
        other => panic!("expected the stored token, got {other:?}"),
    }
    assert!(matches!(
        access_plan(&account(BackendId::Copilot, None, 0), 0),
        TokenPlan::Missing
    ));
}

#[test]
fn renewal_needs_a_stored_credential() {
    assert!(matches!(renew_plan(None), Err(TokenError::MissingToken)));
    let bare = account(BackendId::Codex, None, 0);
    assert!(matches!(renew_plan(Some(&bare)), Err(TokenError::MissingToken)));
    let codex = account(BackendId::Codex, Some("r"), 0);
    assert!(matches!(renew_plan(Some(&codex)), Ok(RenewPlan::Ask(t)) if t == "r"));
    let copilot = account(BackendId::Copilot, Some("g"), 0);
    assert!(matches!(renew_plan(Some(&copilot)), Ok(RenewPlan::Use(t)) if t == "g"));
    assert_eq!(TokenError::MissingToken.message(), "account has no stored credential");
    assert_eq!(
        TokenError::RefreshFailed("x".into()).message(),
        "token refresh failed: x"
    );
}

#[test]
fn renewed_tokens_are_stored() {
    let mut a = account(BackendId::Codex, Some("r"), 0);
    a.account_id = Some("known".into());
    let tokens = TokenResponse {
        id_token: None,
        access_token: "new-access".into(),
        refresh_token: "new-refresh".into(),
        expires_in: Some(10),
    };
    let u = token_update(&a, &tokens, &None, 1_000);
    assert_eq!(u.access_token.as_deref(), Some("new-access"));
    assert_eq!(u.refresh_token.as_deref(), Some("new-refresh"));
    assert_eq!(u.expires_at, 11_000);
    assert_eq!(u.account_id.as_deref(), Some("known"));
    assert_eq!(u.residency, None);
    let claims = Some(Claims {
        account_id: Some("told".into()),
        residency: Some("us".into()),
        email: None,
        display_name: None,
    });
    let u = token_update(&a, &tokens, &claims, 1_000);
    assert_eq!((u.account_id.as_deref(), u.residency.as_deref()), (Some("told"), Some("us")));
}
