use http::HeaderMap;
use underclass::codex::CodexBackend;
use underclass::copilot::CopilotBackend;
use underclass::health::RetryNumbers;
use underclass::json::{json_bytes, parse_json, Json};
use underclass::models::{Account, AccountStatus, BackendId, ModelInfo, RequestLogEntry};
use underclass::pool::{Decision, PoolCore, Selection};
use underclass::proxy::{
    admitted, bad_body, extract_sticky_key, fresh_binding, judge, models, own_answer,
    requested_model, retry_after_secs, unauthorized, usage_in_text, usage_is_stream, Answer,
    AttemptAction, AttemptEvent, AttemptRun, Final, InferAction, InferEvent, InferRun, Passthrough,
    Phase, RequestContext, RequestLog, Shared, UsageSupport, Verdict, LOG_BUFFER,
};
use underclass::usage::TokenCounts;

fn json(text: &str) -> Json {
    parse_json(text.as_bytes()).unwrap()
}

#[test]
fn sticky_key_from_body_cache_key() {
    let body = json(r#"{"model": "gpt-5.5", "prompt_cache_key": "sess-1"}"#);
    assert_eq!(extract_sticky_key(&body, None).as_deref(), Some("sess-1"));
}

#[test]
fn sticky_key_camel_case_fallback() {
    let body = json(r#"{"model": "gpt-5.5", "promptCacheKey": "sess-2"}"#);
    assert_eq!(extract_sticky_key(&body, None).as_deref(), Some("sess-2"));
}

#[test]
fn sticky_key_falls_back_to_session_header() {
    let body = json(r#"{"model": "gpt-5.5"}"#);
    assert_eq!(extract_sticky_key(&body, Some("sess-3")).as_deref(), Some("sess-3"));
}

#[test]
fn sticky_key_none_when_absent() {
    let body = json(r#"{"model": "gpt-5.5"}"#);
    assert!(extract_sticky_key(&body, None).is_none());
    let empty = json(r#"{"prompt_cache_key": ""}"#);
    assert!(extract_sticky_key(&empty, None).is_none());
}

#[test]
fn stream_request_overrides_incorrect_json_content_type() {
    let body = json(r#"{"stream": true}"#);
    assert!(usage_is_stream(&body, b"application/json"));
    assert!(usage_is_stream(&json("{}"), b"text/event-stream; charset=utf-8"));
    assert!(!usage_is_stream(&json("{}"), b"application/json"));
}

#[test]
fn sticky_key_of_another_kind_leaves_it_to_the_header() {
    let body = json(r#"{"prompt_cache_key": 5, "promptCacheKey": "x"}"#);
    assert_eq!(extract_sticky_key(&body, Some("h")).as_deref(), Some("h"));
    let empty = json(r#"{"prompt_cache_key": ""}"#);
    assert_eq!(extract_sticky_key(&empty, Some("h")), None);
    assert_eq!(requested_model(&json(r#"{"model":"m"}"#)), "m");
    assert_eq!(requested_model(&json(r#"{"model":1}"#)), "");
}

#[test]
fn proxy_key_gate() {
    assert!(admitted(None, None));
    assert!(admitted(Some("k"), Some("Bearer k")));
    assert!(!admitted(Some("k"), Some("Bearer kk")));
    assert!(!admitted(Some("k"), Some("bearer k")));
    assert!(!admitted(Some("k"), None));
    let (status, body) = unauthorized();
    assert_eq!(status, 401);
    assert_eq!(
        json_bytes(&body),
        br#"{"error":{"message":"invalid or missing proxy api key","type":"authentication_error"}}"#
            .to_vec()
    );
}

#[test]
fn waits_are_rounded_up() {
    assert_eq!(retry_after_secs(1_000, 1_000), 0);
    assert_eq!(retry_after_secs(1_001, 1_000), 1);
    assert_eq!(retry_after_secs(2_000, 1_000), 1);
    assert_eq!(retry_after_secs(2_001, 1_000), 2);
    assert_eq!(retry_after_secs(0, 5), 0);
    assert_eq!(retry_after_secs(i64::MAX, 0), 9_223_372_036_854_776);
}

#[test]
fn history_keeps_the_latest() {
    let mut log = RequestLog::new();
    for i in 0..LOG_BUFFER as i64 + 5 {
        log.push(RequestLogEntry {
            ts: i,
            request_id: format!("{i}"),
            model: "m".into(),
            backend: None,
            account: None,
            label: None,
            sticky: "none".into(),
            status: 200,
            duration_ms: 1,
        });
    }
    assert_eq!(log.entries().len(), LOG_BUFFER);
    assert_eq!(log.entries()[0].ts, 5);
    assert_eq!(log.entries()[LOG_BUFFER - 1].ts, LOG_BUFFER as i64 + 4);
}

#[test]
fn verdicts() {
    assert_eq!(judge(200, "", true, true), Verdict::Stream);
    assert_eq!(judge(400, "unknown field stream_options", true, true), Verdict::Resend);
    assert_eq!(judge(422, "include_usage?", true, true), Verdict::Resend);
    assert_eq!(judge(400, "bad", true, true), Verdict::Reject);
    assert_eq!(judge(400, "stream_options", false, true), Verdict::Fail);
    assert_eq!(judge(401, "", false, true), Verdict::Refresh);
    assert_eq!(judge(403, "", true, true), Verdict::Refresh);
    assert_eq!(judge(403, "", true, false), Verdict::Fail);
    assert_eq!(judge(302, "", false, true), Verdict::Fail);
}

#[test]
fn usage_of_error_bodies() {
    let text = r#"{"usage":{"input_tokens":3,"output_tokens":0}}"#;
    assert_eq!(usage_in_text(text, false), Some(TokenCounts { input_tokens: 3, output_tokens: 0 }));
    assert_eq!(usage_in_text(text, true), None);
    assert_eq!(usage_in_text("oops", false), None);
}

fn account(id: &str, backend: BackendId) -> Account {
    Account {
        id: id.into(),
        backend,
        label: format!("label-{id}"),
        refresh_token: Some("refresh".into()),
        access_token: None,
        expires_at: 0,
        token_refreshed_at: 0,
        account_id: None,
        residency: None,
        enterprise_url: None,
        status: AccountStatus::Healthy,
        reset_at: 0,
        created_at: 0,
        updated_at: 0,
    }
}

fn shared(ids: &[(&str, BackendId)]) -> Shared {
    let accounts = ids.iter().map(|(id, b)| account(id, *b)).collect();
    let mut pool = PoolCore::new(accounts, Vec::new(), &Vec::new(), &Vec::new());
    pool.set_catalog(BackendId::Codex, vec!["m".into()]);
    pool.set_catalog(BackendId::Copilot, vec!["m".into()]);
    Shared { pool, support: UsageSupport::new(), log: RequestLog::new() }
}

fn context(path: &str, body: &str, sticky: Option<&str>) -> RequestContext {
    RequestContext {
        request_id: "r".into(),
        path: path.into(),
        model: "m".into(),
        sticky: sticky.map(str::to_string),
        body: body.as_bytes().to_vec(),
    }
}

fn answer(status: u16, text: &str) -> Answer {
    Answer {
        status,
        headers: HeaderMap::new(),
        numbers: RetryNumbers { ms: None, secs_as_ms: None },
        content_type: Some("text/plain".into()),
        text: text.into(),
    }
}

fn codex() -> CodexBackend {
    CodexBackend { cooldown_ms: 1_000, upstream: None }
}

fn copilot() -> CopilotBackend {
    CopilotBackend { cooldown_ms: 1_000, upstream: None }
}

#[test]
fn successful_attempt_streams_and_is_logged() {
    let mut shared = shared(&[("a", BackendId::Codex)]);
    let ctx = context("/v1/responses", r#"{"model":"m","stream":true}"#, Some("s"));
    let selection = shared.pool.select(0, Some("s"), "m").unwrap();
    let mut run = AttemptRun::start(&mut shared.pool, &selection, &Vec::new()).unwrap();
    assert_eq!(shared.pool.inflight("a"), Some(1));
    let mut renewals = Vec::new();
    let (action, _) =
        run.step(AttemptEvent::Token("tok".into()), &codex(), &ctx, &mut renewals, &mut shared, 5, 0);
    match action {
        AttemptAction::Send(out) => {
            assert_eq!(out.url, "https://chatgpt.com/backend-api/codex/responses");
            assert_eq!(out.headers.get("authorization").unwrap(), "Bearer tok");
            assert_eq!(out.headers.get("content-type").unwrap(), "application/json");
            assert_eq!(out.body, br#"{"model":"m","store":false,"stream":true}"#.to_vec());
            assert!(out.streams && !out.asks_usage);
        }
        other => panic!("expected a request, got {other:?}"),
    }
    let (action, effects) = run.step(
        AttemptEvent::Answered(answer(200, "")),
        &codex(),
        &ctx,
        &mut renewals,
        &mut shared,
        9,
        4,
    );
    match action {
        AttemptAction::Respond(record) => {
            assert_eq!((record.status, record.ts, record.input_tokens), (200, 9, None));
            assert_eq!(record.account_label, "label-a");
            assert_eq!(record.cache_key.as_deref(), Some("s"));
            assert_eq!(record.backend, "codex");
        }
        other => panic!("expected a response, got {other:?}"),
    }
    assert!(effects.record.is_none() && effects.status.is_none());
    let line = &shared.log.entries()[0];
    assert_eq!((line.status, line.duration_ms, line.sticky.as_str()), (200, 4, "s"));
    assert_eq!(line.account.as_deref(), Some("a"));
}

#[test]
fn rejected_credential_is_renewed_once_and_retried() {
    let mut shared = shared(&[("a", BackendId::Codex)]);
    let ctx = context("/v1/responses", "{}", None);
    let selection = shared.pool.select(0, None, "m").unwrap();
    let mut run = AttemptRun::start(&mut shared.pool, &selection, &Vec::new()).unwrap();
    let mut renewals = Vec::new();
    run.step(AttemptEvent::Token("old".into()), &codex(), &ctx, &mut renewals, &mut shared, 1, 0);
    let (action, effects) = run.step(
        AttemptEvent::Answered(answer(403, r#"{"usage":{"input_tokens":1,"output_tokens":2}}"#)),
        &codex(),
        &ctx,
        &mut renewals,
        &mut shared,
        2,
        0,
    );
    assert!(matches!(action, AttemptAction::Refresh));
    let record = effects.record.unwrap();
    assert_eq!((record.status, record.input_tokens, record.output_tokens), (403, Some(1), Some(2)));
    assert!(shared.pool.account("a").unwrap().healthy());
    let (action, effects) = run.step(
        AttemptEvent::Refreshed("new".into()),
        &codex(),
        &ctx,
        &mut renewals,
        &mut shared,
        3,
        0,
    );
    // the renewal ends the attempt, and leaves the account as it was
    assert!(matches!(action, AttemptAction::Failover(Some(p)) if p.status == 403));
    assert!(effects.record.is_none() && effects.status.is_none());
    assert_eq!(run.phase, Phase::Over);
    assert!(shared.pool.account("a").unwrap().healthy());
    shared.pool.release("a");

    // another attempt gets the same account, with the renewed token
    let again = shared.pool.select(3, None, "m").unwrap();
    assert_eq!(again.account_id, "a");
    let mut run = AttemptRun::start(&mut shared.pool, &again, &renewals).unwrap();
    assert_eq!(run.renewed.as_deref(), Some("new"));
    let token = AttemptEvent::Token(run.renewed.clone().unwrap());
    let (action, _) = run.step(token, &codex(), &ctx, &mut renewals, &mut shared, 3, 0);
    match action {
        AttemptAction::Send(out) => {
            assert_eq!(out.headers.get("authorization").unwrap(), "Bearer new")
        }
        other => panic!("expected a retry, got {other:?}"),
    }
    let (action, effects) = run.step(
        AttemptEvent::Answered(answer(403, "no")),
        &codex(),
        &ctx,
        &mut renewals,
        &mut shared,
        4,
        0,
    );
    match action {
        AttemptAction::Failover(Some(p)) => {
            assert_eq!((p.status, p.content_type.as_str(), p.body.as_str()), (403, "text/plain", "no"))
        }
        other => panic!("expected failover, got {other:?}"),
    }
    assert_eq!(effects.status, Some((AccountStatus::AuthError, 0)));
    assert_eq!(shared.pool.account("a").unwrap().status, AccountStatus::AuthError);
    assert_eq!(run.phase, Phase::Over);
}

#[test]
fn failed_renewal_and_missing_token_reject_the_account() {
    for event in [AttemptEvent::NoToken, AttemptEvent::RefreshFailed] {
        let renews = matches!(event, AttemptEvent::RefreshFailed);
        let mut shared = shared(&[("a", BackendId::Copilot)]);
        let ctx = context("/v1/responses", "{}", None);
        let selection = shared.pool.select(0, None, "m").unwrap();
        let mut run = AttemptRun::start(&mut shared.pool, &selection, &Vec::new()).unwrap();
        let mut renewals = Vec::new();
        if renews {
            run.step(AttemptEvent::Token("t".into()), &copilot(), &ctx, &mut renewals, &mut shared, 0, 0);
            run.step(
                AttemptEvent::Answered(answer(401, "who are you")),
                &copilot(),
                &ctx,
                &mut renewals,
                &mut shared,
                0,
                0,
            );
        }
        let (action, effects) = run.step(event, &copilot(), &ctx, &mut renewals, &mut shared, 0, 0);
        match action {
            AttemptAction::Failover(None) => assert!(!renews),
            AttemptAction::Failover(Some(p)) => {
                assert!(renews);
                assert_eq!(
                    (p.status, p.content_type.as_str(), p.body.as_str()),
                    (401, "text/plain", "who are you")
                );
            }
            other => panic!("expected a failover, got {other:?}"),
        }
        assert_eq!(effects.status, Some((AccountStatus::AuthError, 0)));
        assert!(effects.record.is_none());
    }
}

/// The failover of an attempt whose last request is not answered.
fn unanswered(first: Vec<AttemptEvent>) -> Option<Passthrough> {
    let mut shared = shared(&[("a", BackendId::Copilot)]);
    let ctx = context("/v1/chat/completions", r#"{"stream":true}"#, None);
    let selection = shared.pool.select(0, None, "m").unwrap();
    let mut run = AttemptRun::start(&mut shared.pool, &selection, &Vec::new()).unwrap();
    let mut renewals = Vec::new();
    for event in first {
        run.step(event, &copilot(), &ctx, &mut renewals, &mut shared, 0, 0);
    }
    let (action, effects) =
        run.step(AttemptEvent::NoAnswer, &copilot(), &ctx, &mut renewals, &mut shared, 0, 0);
    assert_eq!(effects.record.unwrap().status, 0);
    assert_eq!(effects.status, None);
    match action {
        AttemptAction::Failover(pass) => pass,
        other => panic!("expected a failover, got {other:?}"),
    }
}

#[test]
fn upstream_answer_outlives_an_unanswered_retry() {
    let token = || AttemptEvent::Token("t".into());
    assert!(unanswered(vec![token()]).is_none());
    let resent =
        unanswered(vec![token(), AttemptEvent::Answered(answer(400, "no stream_options here"))])
            .unwrap();
    assert_eq!(
        (resent.status, resent.content_type.as_str(), resent.body.as_str()),
        (400, "application/json", "no stream_options here")
    );
}

#[test]
fn unsupported_usage_option_is_dropped_and_remembered() {
    let mut shared = shared(&[("a", BackendId::Copilot)]);
    let ctx = context("/v1/chat/completions", r#"{"stream":true}"#, None);
    let selection = shared.pool.select(0, None, "m").unwrap();
    let mut run = AttemptRun::start(&mut shared.pool, &selection, &Vec::new()).unwrap();
    let mut renewals = Vec::new();
    let (action, _) =
        run.step(AttemptEvent::Token("t".into()), &copilot(), &ctx, &mut renewals, &mut shared, 0, 0);
    match action {
        AttemptAction::Send(out) => {
            assert!(out.asks_usage);
            assert_eq!(
                out.body,
                br#"{"stream":true,"stream_options":{"include_usage":true}}"#.to_vec()
            );
        }
        other => panic!("expected a request, got {other:?}"),
    }
    let (action, effects) = run.step(
        AttemptEvent::Answered(answer(400, "unknown: stream_options")),
        &copilot(),
        &ctx,
        &mut renewals,
        &mut shared,
        0,
        0,
    );
    match action {
        AttemptAction::Send(out) => assert_eq!(out.body, br#"{"stream":true}"#.to_vec()),
        other => panic!("expected a retry, got {other:?}"),
    }
    assert_eq!(effects.record.unwrap().status, 400);
    assert!(shared.support.is_rejected_by(BackendId::Copilot));
    assert!(!shared.support.is_rejected_by(BackendId::Codex));
    let (action, effects) =
        run.step(AttemptEvent::NoAnswer, &copilot(), &ctx, &mut renewals, &mut shared, 3, 0);
    assert!(matches!(action, AttemptAction::Failover(Some(p)) if p.status == 400));
    assert_eq!(effects.record.unwrap().status, 0);
}

#[test]
fn bad_request_with_usage_option_is_handed_back() {
    let mut shared = shared(&[("a", BackendId::Copilot)]);
    let ctx = context("/v1/chat/completions", r#"{"stream":true}"#, None);
    let selection = shared.pool.select(0, None, "m").unwrap();
    let mut run = AttemptRun::start(&mut shared.pool, &selection, &Vec::new()).unwrap();
    let mut renewals = Vec::new();
    run.step(AttemptEvent::Token("t".into()), &copilot(), &ctx, &mut renewals, &mut shared, 0, 0);
    let (action, _) = run.step(
        AttemptEvent::Answered(answer(422, "no such model")),
        &copilot(),
        &ctx,
        &mut renewals,
        &mut shared,
        0,
        0,
    );
    match action {
        AttemptAction::Failover(Some(p)) => assert_eq!(
            (p.status, p.content_type.as_str(), p.body.as_str()),
            (422, "application/json", "no such model")
        ),
        other => panic!("expected failover, got {other:?}"),
    }
    assert_eq!(shared.log.entries().len(), 1);
}

#[test]
fn exhausted_account_cools() {
    let mut shared = shared(&[("a", BackendId::Codex)]);
    let ctx = context("/v1/responses", "not json", None);
    let selection = shared.pool.select(0, None, "m").unwrap();
    let mut run = AttemptRun::start(&mut shared.pool, &selection, &Vec::new()).unwrap();
    let mut renewals = Vec::new();
    let (action, _) =
        run.step(AttemptEvent::Token("t".into()), &codex(), &ctx, &mut renewals, &mut shared, 0, 0);
    match action {
        AttemptAction::Send(out) => assert_eq!(out.body, b"null".to_vec()),
        other => panic!("expected a request, got {other:?}"),
    }
    let mut exhausted = answer(429, "slow");
    exhausted.content_type = None;
    let (action, effects) = run.step(
        AttemptEvent::Answered(exhausted),
        &codex(),
        &ctx,
        &mut renewals,
        &mut shared,
        50,
        0,
    );
    match action {
        AttemptAction::Failover(Some(p)) => assert_eq!(p.content_type, "application/json"),
        other => panic!("expected failover, got {other:?}"),
    }
    assert_eq!(effects.status, Some((AccountStatus::Cooling, 1_050)));
    assert_eq!(shared.pool.account("a").unwrap().reset_at, 1_050);
}

#[test]
fn unknown_account_is_not_tried() {
    let mut shared = shared(&[]);
    let selection = Selection {
        account_id: "gone".into(),
        backend: BackendId::Codex,
        decision: Decision::Unsticky,
    };
    assert!(AttemptRun::start(&mut shared.pool, &selection, &Vec::new()).is_none());
}

fn pass(status: u16) -> Option<Passthrough> {
    Some(Passthrough { status, content_type: "x".into(), body: "y".into() })
}

/// Runs a request in which every attempt fails; counts attempts and resets.
fn run_failing(pool: &mut PoolCore, resets_work: bool, errors: bool) -> (usize, usize, Final) {
    let mut run = InferRun::new();
    let mut attempts = 0;
    let mut resets = 0;
    let mut action = run.step(InferEvent::Begin, pool, 0, None, "m");
    loop {
        let event = match action {
            InferAction::TryReset => {
                resets += 1;
                InferEvent::ResetDone(resets_work)
            }
            InferAction::TryAccount(_) => {
                attempts += 1;
                InferEvent::FailedOver(if errors { pass(500 + attempts as u16) } else { None })
            }
            InferAction::Finish(f) => return (attempts, resets, f),
        };
        action = run.step(event, pool, 0, None, "m");
    }
}

#[test]
fn attempts_are_bounded_by_accounts() {
    let mut two = shared(&[("a", BackendId::Codex), ("b", BackendId::Copilot)]);
    let (attempts, resets, f) = run_failing(&mut two.pool, false, true);
    assert_eq!((attempts, resets), (2, 2));
    match f {
        Final::Upstream(p) => assert_eq!(p.status, 502),
        other => panic!("expected the last error, got {other:?}"),
    }
    let mut two = shared(&[("a", BackendId::Codex), ("b", BackendId::Copilot)]);
    let (attempts, resets, f) = run_failing(&mut two.pool, true, false);
    assert_eq!((attempts, resets), (3, 2));
    assert!(matches!(f, Final::PoolExhausted));
    assert_eq!(own_answer(&f).unwrap().0, 503);
}

#[test]
fn empty_pool_has_no_accounts() {
    let mut none = shared(&[]);
    let (attempts, _, f) = run_failing(&mut none.pool, false, false);
    assert_eq!(attempts, 0);
    assert!(matches!(f, Final::NoAccounts));
    let (status, body) = own_answer(&f).unwrap();
    assert_eq!(status, 503);
    assert_eq!(
        json_bytes(&body),
        br#"{"error":{"message":"no subscriptions are configured for this model","type":"no_accounts"}}"#
            .to_vec()
    );
}

#[test]
fn saturation_tries_one_reset_then_fails_fast() {
    let mut one = shared(&[("a", BackendId::Codex)]);
    one.pool.set_status("a", AccountStatus::Cooling, 900);
    let (attempts, resets, f) = run_failing(&mut one.pool, false, false);
    assert_eq!((attempts, resets), (0, 2));
    match f {
        Final::Saturated { until_ms } => assert_eq!(until_ms, 900),
        other => panic!("expected saturation, got {other:?}"),
    }
    assert_eq!(own_answer(&Final::Saturated { until_ms: 900 }).unwrap().0, 429);
}

#[test]
fn recovered_account_is_tried_after_a_reset() {
    let mut one = shared(&[("a", BackendId::Codex)]);
    one.pool.set_status("a", AccountStatus::Cooling, 900);
    let mut run = InferRun::new();
    run.step(InferEvent::Begin, &mut one.pool, 0, Some("k"), "m");
    let action = run.step(InferEvent::ResetDone(false), &mut one.pool, 0, Some("k"), "m");
    assert!(matches!(action, InferAction::TryReset));
    one.pool.set_status("a", AccountStatus::Healthy, 0);
    let action = run.step(InferEvent::ResetDone(true), &mut one.pool, 7, Some("k"), "m");
    let selection = match action {
        InferAction::TryAccount(s) => s,
        other => panic!("expected an attempt, got {other:?}"),
    };
    let binding = fresh_binding(&one.pool, &selection, Some("k")).unwrap();
    assert_eq!((binding.cache_key.as_str(), binding.account_id.as_str(), binding.bound_at), ("k", "a", 7));
    assert!(fresh_binding(&one.pool, &selection, None).is_none());
    let action = run.step(InferEvent::Responded, &mut one.pool, 8, Some("k"), "m");
    assert!(matches!(action, InferAction::Finish(Final::Response)));
    assert!(own_answer(&Final::Response).is_none());
    let hit = one.pool.select(9, Some("k"), "m").unwrap();
    assert!(fresh_binding(&one.pool, &hit, Some("k")).is_none());
}

#[test]
fn unreadable_bodies() {
    let (status, body) = bad_body(false, "eof");
    assert_eq!(status, 400);
    assert_eq!(
        json_bytes(&body),
        br#"{"error":{"message":"request body must be valid json: eof","type":"invalid_request_error"}}"#
            .to_vec()
    );
    assert_eq!(bad_body(true, "x").0, 413);
}

fn model(id: &str, context: i64) -> ModelInfo {
    ModelInfo { id: id.into(), name: id.into(), context, input: 1, output: 2 }
}

#[test]
fn models_are_merged_in_order() {
    let list = models(
        &vec![model("z", 5), model("a", 5), model("same", 7)],
        &vec![model("a", 9), model("same", 7), model("b", 1)],
    );
    let seen: Vec<(&str, i64, BackendId)> =
        list.iter().map(|m| (m.model.id.as_str(), m.model.context, m.backend)).collect();
    assert_eq!(
        seen,
        vec![
            ("a", 9, BackendId::Copilot),
            ("b", 1, BackendId::Copilot),
            ("same", 7, BackendId::Codex),
            ("z", 5, BackendId::Codex),
        ]
    );
}
