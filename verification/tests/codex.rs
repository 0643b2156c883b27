use http::{HeaderMap, HeaderValue};
use underclass::codex::{
    after_poll_error, check_lifetime, check_poll_status, check_status, codex_endpoint,
    default_catalog, expiry, finish_flow, identity_from_token, poll_interval, verify_url,
    AuthError, Claims, CodexBackend, PollStep, TokenResponse, CODEX_ENDPOINT, USER_AGENT,
};
use underclass::flows::new_account;
use underclass::headers::has_room;
use underclass::health::RetryNumbers;
use underclass::json::{parse_json, Json};
use underclass::models::{AccountStatus, BackendId, Outcome};
use underclass::provider::{Backend, INJECTED_NAMES};

fn backend(cooldown_ms: i64) -> CodexBackend {
    CodexBackend { cooldown_ms, upstream: None }
}

fn finite(h: &HeaderMap, name: &str) -> Option<f64> {
    let n = h.get(name)?.to_str().ok()?.trim().parse::<f64>().ok()?;
    (n.is_finite() && n >= 0.0).then_some(n)
}

fn numbers(h: &HeaderMap) -> RetryNumbers {
    RetryNumbers {
        ms: finite(h, "retry-after-ms").map(|n| n as i64),
        secs_as_ms: finite(h, "retry-after").map(|n| (n * 1000.0) as i64),
    }
}

#[test]
fn quota_body_deadline_outlasts_short_header() {
    let backend = backend(30_000);
    let mut headers = HeaderMap::new();
    headers.insert("retry-after", HeaderValue::from_static("10"));
    let body = r#"{"error":{"type":"usage_limit_reached","resets_at":100}}"#;
    assert!(matches!(
        backend.classify(429, body, &headers, &numbers(&headers), 1_000),
        Outcome::QuotaExhausted { until_ms: 100_000 }
    ));
    assert!(matches!(
        backend.classify(429, body, &headers, &numbers(&headers), 200_000),
        Outcome::QuotaExhausted { until_ms: 210_000 }
    ));
    headers.insert("retry-after", HeaderValue::from_static("200"));
    assert!(matches!(
        backend.classify(429, body, &headers, &numbers(&headers), 1_000),
        Outcome::QuotaExhausted { until_ms: 201_000 }
    ));
}

#[test]
fn overload_is_transient_and_legacy_quota_remains_supported() {
    let backend = backend(30_000);
    let headers = HeaderMap::new();
    let n = numbers(&headers);
    assert!(matches!(
        backend.classify(429, r#"{"error":{"type":"server_is_overloaded"}}"#, &headers, &n, 1_000),
        Outcome::Transient
    ));
    assert!(matches!(
        backend.classify(400, r#"{"error":{"code":"usage_not_included"}}"#, &headers, &n, 1_000),
        Outcome::QuotaExhausted { until_ms: 31_000 }
    ));
    assert!(matches!(
        backend.classify(400, "FreeUsageLimitError oops", &headers, &n, 1_000),
        Outcome::QuotaExhausted { until_ms: 31_000 }
    ));
}

#[test]
fn rewrites_completion_paths_to_codex_endpoint() {
    let backend = backend(1000);
    let account = new_account(BackendId::Codex, "x".into());
    assert_eq!(backend.rewrite_url("/v1/responses", &account), CODEX_ENDPOINT);
    assert_eq!(backend.rewrite_url("/v1/chat/completions", &account), CODEX_ENDPOINT);
    assert_eq!(
        backend.rewrite_url("/v1/other", &account),
        "https://api.openai.com/v1/other"
    );
}

#[test]
fn injects_codex_headers() {
    let backend = backend(1000);
    let mut account = new_account(BackendId::Codex, "x".into());
    account.account_id = Some("acct-123".into());
    account.residency = Some("eu".into());
    let mut headers = HeaderMap::new();
    assert!(has_room(&headers, INJECTED_NAMES));
    backend.inject_headers(&account, "tok", None, &Json::Null, &mut headers);
    assert_eq!(headers.get("authorization").unwrap(), "Bearer tok");
    assert_eq!(headers.get("ChatGPT-Account-Id").unwrap(), "acct-123");
    assert_eq!(headers.get("x-openai-internal-codex-residency").unwrap(), "eu");
    assert_eq!(headers.get("originator").unwrap(), "opencode");
}

#[test]
fn client_credential_does_not_survive() {
    let backend = backend(1000);
    let mut account = new_account(BackendId::Codex, "x".into());
    account.account_id = Some("line\nbreak".into());
    let mut headers = HeaderMap::new();
    headers.append("authorization", HeaderValue::from_static("Bearer client"));
    headers.append("authorization", HeaderValue::from_static("Bearer second"));
    backend.inject_headers(&account, "tok", Some("s"), &Json::Null, &mut headers);
    let all: Vec<&HeaderValue> = headers.get_all("authorization").iter().collect();
    assert_eq!(all, vec!["Bearer tok"]);
    assert!(headers.get("chatgpt-account-id").is_none());
    assert_eq!(headers.get("user-agent").unwrap(), USER_AGENT);
}

#[test]
fn full_header_map_has_no_room() {
    let mut headers = HeaderMap::new();
    for i in 0..6_548u32 {
        let name = http::HeaderName::from_bytes(format!("x-{i}").as_bytes()).unwrap();
        headers.insert(name, HeaderValue::from_static("v"));
    }
    assert!(!has_room(&headers, INJECTED_NAMES));
    assert!(has_room(&headers, 6));
}

#[test]
fn body_is_never_stored() {
    let backend = backend(1);
    let mut body = parse_json(br#"{"store":true,"model":"m","n":[1,2.5]}"#).unwrap();
    backend.prepare_body(&mut body);
    assert_eq!(body.get("store").unwrap().as_bool(), Some(false));
    assert_eq!(body.get("model").unwrap().as_str(), Some("m"));
    let text = underclass::json::json_bytes(&body);
    assert_eq!(text, br#"{"model":"m","n":[1,2.5],"store":false}"#.to_vec());
    let mut list = parse_json(b"[1]").unwrap();
    backend.prepare_body(&mut list);
    assert_eq!(underclass::json::json_bytes(&list), b"[1]".to_vec());
    assert!(!backend.auto_stream_usage("/v1/chat/completions", &mut body));
    assert!(!backend.usage_is_chat("/v1/chat/completions"));
    assert_eq!(backend.id(), BackendId::Codex);
    assert_eq!(backend.default_cooldown_ms(), 1);
}

#[test]
fn configured_upstream_takes_the_place_of_the_endpoint() {
    assert_eq!(codex_endpoint(None), CODEX_ENDPOINT);
    assert_eq!(codex_endpoint(Some("http://127.0.0.1:9")), "http://127.0.0.1:9");
    let backend = CodexBackend { cooldown_ms: 1, upstream: Some("http://up".into()) };
    let account = new_account(BackendId::Codex, "x".into());
    assert_eq!(backend.rewrite_url("/v1/responses", &account), "http://up");
}

#[test]
fn quota_words_count_only_where_they_stand() {
    let backend = backend(10);
    let h = HeaderMap::new();
    let n = numbers(&h);
    let quota = Outcome::QuotaExhausted { until_ms: 15 };
    assert_eq!(backend.classify(400, r#"{"error":{"code":"RATE_LIMIT"}}"#, &h, &n, 5), quota);
    assert_eq!(backend.classify(500, "Too_Many_Requests!", &h, &n, 5), quota);
    assert_eq!(
        backend.classify(400, r#"{"error":{"message":"rate_limit"}}"#, &h, &n, 5),
        Outcome::Success
    );
    assert_eq!(backend.classify(401, "{}", &h, &n, 5), Outcome::AuthFailed);
    assert_eq!(backend.classify(503, "down", &h, &n, 5), Outcome::Transient);
}

fn tokens(expires_in: Option<u64>) -> TokenResponse {
    TokenResponse {
        id_token: None,
        access_token: "access".into(),
        refresh_token: "refresh".into(),
        expires_in,
    }
}

fn claims(email: Option<&str>, name: Option<&str>) -> Option<Claims> {
    Some(Claims {
        account_id: Some("chatgpt-1".into()),
        residency: None,
        email: email.map(str::to_string),
        display_name: name.map(str::to_string),
    })
}

#[test]
fn sign_in_creates_a_labelled_account() {
    let a = finish_flow(false, None, &tokens(Some(60)), &claims(Some("a@b.c"), None), &None, 1_000)
        .unwrap();
    assert_eq!(a.label, "a@b.c");
    assert_eq!(a.backend, BackendId::Codex);
    assert_eq!(a.expires_at, 61_000);
    assert_eq!(a.token_refreshed_at, 1_000);
    assert_eq!(a.account_id.as_deref(), Some("chatgpt-1"));
    assert_eq!(a.refresh_token.as_deref(), Some("refresh"));
    assert_eq!(a.id.len(), 36);
    let b = finish_flow(false, None, &tokens(None), &None, &claims(None, Some("Bee")), 0).unwrap();
    assert_eq!(b.label, "Bee");
    assert_eq!(b.expires_at, 3_600_000);
    let c = finish_flow(false, None, &tokens(None), &None, &None, 0).unwrap();
    assert_eq!(c.label, "chatgpt");
    assert_ne!(b.id, c.id);
}

#[test]
fn sign_in_renews_an_account() {
    let mut old = new_account(BackendId::Codex, "kept".into());
    old.status = AccountStatus::AuthError;
    old.residency = Some("eu".into());
    let a = finish_flow(true, Some(&old), &tokens(None), &claims(Some("x"), None), &None, 7).unwrap();
    assert_eq!(a.id, old.id);
    assert_eq!(a.label, "kept");
    assert!(a.healthy());
    assert_eq!(a.residency.as_deref(), Some("eu"));
    assert_eq!(a.updated_at, 7);
    assert_eq!(a.created_at, old.created_at);
    assert_eq!(
        finish_flow(true, None, &tokens(None), &None, &None, 7).unwrap_err(),
        "account being replaced no longer exists"
    );
}

#[test]
fn sign_in_polls() {
    assert_eq!(poll_interval(None), 5);
    assert_eq!(poll_interval(Some("7")), 7);
    assert_eq!(poll_interval(Some("+9")), 9);
    assert_eq!(poll_interval(Some("0")), 1);
    assert_eq!(poll_interval(Some("soon")), 5);
    assert!(check_poll_status(200).is_ok());
    assert!(matches!(check_poll_status(403), Err(AuthError::Failed(_))));
    assert!(matches!(check_poll_status(404), Err(AuthError::Failed(_))));
    assert!(matches!(check_poll_status(500), Err(AuthError::Status(500))));
    assert!(matches!(check_status(302), Err(AuthError::Status(302))));
    assert!(matches!(after_poll_error(&AuthError::Failed("pending".into())), PollStep::Wait));
    match after_poll_error(&AuthError::Status(500)) {
        PollStep::Fail(m) => assert_eq!(m, "device authorization failed"),
        other => panic!("expected failure, got {other:?}"),
    }
    assert_eq!(verify_url(), "https://auth.openai.com/codex/device");
}

#[test]
fn errors_in_words() {
    assert_eq!(AuthError::Http("x".into()).message(), "request failed: x");
    assert_eq!(AuthError::Status(418).message(), "unexpected status 418");
    assert_eq!(AuthError::Failed("no".into()).message(), "authorization failed: no");
}

#[test]
fn identity_prefers_the_email() {
    assert_eq!(identity_from_token(&claims(Some("e"), Some("n"))).as_deref(), Some("e"));
    assert_eq!(identity_from_token(&claims(None, Some("n"))).as_deref(), Some("n"));
    assert_eq!(identity_from_token(&claims(None, None)), None);
    assert_eq!(identity_from_token(&None), None);
}

#[test]
fn token_lifetimes_fit() {
    assert!(check_lifetime(Some(60), 5));
    assert_eq!(expiry(Some(60), 5), 60_005);
    assert!(!check_lifetime(Some(i64::MAX as u64), 5));
    assert!(!check_lifetime(Some(1 << 63), 5));
    assert!(!check_lifetime(Some(9_223_372_036_854_775), i64::MAX));
    assert!(check_lifetime(Some(u64::MAX), 5));
    assert_eq!(expiry(Some(u64::MAX), 5), -995);
    assert_eq!(expiry(None, 5), 3_600_005);
}

#[test]
fn default_catalog_is_complete() {
    let models = default_catalog();
    assert_eq!(models.len(), 8);
    assert_eq!(models[3].id, "gpt-5.5");
    assert_eq!(models[3].name, "GPT-5.5");
    assert!(models.iter().all(|m| (m.context, m.input, m.output) == (400_000, 272_000, 128_000)));
}
