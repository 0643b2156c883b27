use http::HeaderMap;
use underclass::copilot::{
    after_poll_error, body_has_image, check_poll, check_status, fallback_catalog, finish_flow,
    first_interval, normalize_domain, parse_github_user, parse_models_response, wait_ms,
    AuthError, CopilotBackend, DeviceCodePoll, PollStep, API_VERSION,
};
use underclass::flows::new_account;
use underclass::health::RetryNumbers;
use underclass::json::{json_bytes, parse_json, Json};
use underclass::models::{AccountStatus, BackendId, Outcome};
use underclass::provider::Backend;

fn backend() -> CopilotBackend {
    CopilotBackend { cooldown_ms: 1000, upstream: None }
}

fn json(text: &str) -> Json {
    parse_json(text.as_bytes()).unwrap()
}

#[test]
fn stream_usage_preserves_explicit_client_choice() {
    let backend = backend();
    let mut body = json(r#"{"stream": true, "stream_options": {"include_usage": false, "other": 1}}"#);
    assert!(!backend.auto_stream_usage("/v1/chat/completions", &mut body));
    assert_eq!(
        json_bytes(body.get("stream_options").unwrap()),
        json_bytes(&json(r#"{"include_usage": false, "other": 1}"#))
    );
    let mut responses = json(r#"{"stream": true}"#);
    assert!(!backend.auto_stream_usage("/v1/responses", &mut responses));
    assert!(responses.get("stream_options").is_none());
}

#[test]
fn enterprise_urls_rewrite_to_copilot_api_host() {
    let backend = backend();
    let mut account = new_account(BackendId::Copilot, "x".into());
    assert_eq!(
        backend.rewrite_url("/v1/responses", &account),
        "https://api.githubcopilot.com/v1/responses"
    );
    account.enterprise_url = Some("https://company.ghe.com".into());
    assert_eq!(
        backend.rewrite_url("/v1/chat/completions", &account),
        "https://copilot-api.company.ghe.com/v1/chat/completions"
    );
    account.enterprise_url = Some("company.ghe.com".into());
    assert_eq!(
        backend.rewrite_url("/v1/responses", &account),
        "https://copilot-api.company.ghe.com/v1/responses"
    );
}

#[test]
fn parses_models_response_and_applies_usability_filters() {
    let body = json(
        r#"{
        "data": [
            {
                "id": "gpt-5.5",
                "name": "GPT-5.5",
                "model_picker_enabled": true,
                "capabilities": {
                    "supports": { "tool_calls": true },
                    "limits": {
                        "max_context_window_tokens": 400000,
                        "max_prompt_tokens": 272000,
                        "max_output_tokens": 128000
                    }
                }
            },
            {
                "id": "disabled-model",
                "name": "Nope",
                "policy": { "state": "disabled" },
                "capabilities": { "supports": { "tool_calls": true }, "limits": {} }
            },
            {
                "id": "no-limits",
                "name": "Nope",
                "capabilities": { "supports": { "tool_calls": true } }
            },
            {
                "id": "gpt-4.1",
                "name": "GPT-4.1",
                "capabilities": {
                    "supports": { "tool_calls": true },
                    "limits": { "max_prompt_tokens": 1000000, "max_output_tokens": 32000 }
                }
            }
        ]
    }"#,
    );
    let models = parse_models_response(&body);
    let ids: Vec<&str> = models.iter().map(|m| m.id.as_str()).collect();
    assert_eq!(ids, vec!["gpt-4.1", "gpt-5.5"]);
    let gpt55 = models.iter().find(|m| m.id == "gpt-5.5").unwrap();
    assert_eq!(gpt55.context, 400_000);
    assert_eq!(gpt55.input, 272_000);
    assert_eq!(gpt55.output, 128_000);
    let gpt41 = models.iter().find(|m| m.id == "gpt-4.1").unwrap();
    assert_eq!(gpt41.context, 1_000_000);
}

#[test]
fn vision_detection_finds_image_parts() {
    let chat = json(
        r#"{"messages": [
        {"role": "user", "content": [
            {"type": "text", "text": "look"},
            {"type": "image_url", "image_url": {"url": "data:image/png;base64,xx"}}
        ]}
    ]}"#,
    );
    assert!(body_has_image(&chat));
    let responses = json(
        r#"{"input": [
        {"role": "user", "content": [{"type": "input_image", "url": "x"}]}
    ]}"#,
    );
    assert!(body_has_image(&responses));
    let plain = json(r#"{"messages": [{"role": "user", "content": "just text"}]}"#);
    assert!(!body_has_image(&plain));
    let text_only = json(r#"{"messages": [{"role": "user", "content": "the string image_url here"}]}"#);
    assert!(!body_has_image(&text_only));
}

#[test]
fn replaced_member_holds_no_image() {
    let mut body = json(r#"{"part": {"type": "image"}}"#);
    assert!(body_has_image(&body));
    body.set("part", Json::Bool(true));
    assert!(!body_has_image(&body));
}

#[test]
fn equal_ids_keep_their_order() {
    let item = |name: &str| {
        format!(
            r#"{{"id":"m","name":"{name}","capabilities":{{"supports":{{"tool_calls":false}},"limits":{{"max_prompt_tokens":1,"max_output_tokens":2}}}}}}"#
        )
    };
    let body = json(&format!(r#"{{"data":[{},{}]}}"#, item("first"), item("second")));
    let names: Vec<String> = parse_models_response(&body).into_iter().map(|m| m.name).collect();
    assert_eq!(names, vec!["first".to_string(), "second".to_string()]);
    assert!(parse_models_response(&json("{}")).is_empty());
    assert!(parse_models_response(&json(r#"{"data":{}}"#)).is_empty());
    assert!(parse_models_response(&json(r#"{"data":[1,null,{"id":""}]}"#)).is_empty());
}

#[test]
fn usage_is_asked_for_where_it_is_open() {
    let backend = backend();
    let mut body = json(r#"{"stream": true}"#);
    assert!(backend.auto_stream_usage("/v1/chat/completions", &mut body));
    assert_eq!(
        json_bytes(&body),
        br#"{"stream":true,"stream_options":{"include_usage":true}}"#.to_vec()
    );
    let mut body = json(r#"{"stream": true, "stream_options": {"other": 1}}"#);
    assert!(backend.auto_stream_usage("/v1/chat/completions", &mut body));
    assert_eq!(
        json_bytes(&body),
        br#"{"stream":true,"stream_options":{"include_usage":true,"other":1}}"#.to_vec()
    );
    for text in [r#"{"stream": false}"#, r#"{"stream": true, "stream_options": 3}"#, "[]"] {
        let mut body = json(text);
        assert!(!backend.auto_stream_usage("/v1/chat/completions", &mut body));
        assert_eq!(json_bytes(&body), json_bytes(&json(text)));
    }
}

#[test]
fn injects_copilot_headers() {
    let backend = backend();
    let account = new_account(BackendId::Copilot, "x".into());
    let mut headers = HeaderMap::new();
    backend.inject_headers(&account, "gh", Some("session"), &json("{}"), &mut headers);
    assert_eq!(headers.get("authorization").unwrap(), "Bearer gh");
    assert_eq!(headers.get("x-github-api-version").unwrap(), API_VERSION);
    assert_eq!(headers.get("x-initiator").unwrap(), "user");
    assert_eq!(headers.get("openai-intent").unwrap(), "conversation-edits");
    assert_eq!(headers.get("x-interaction-id").unwrap(), "session");
    assert!(headers.get("copilot-vision-request").is_none());
    let image = json(r#"{"x":[{"type":"input_image"}]}"#);
    let mut headers = HeaderMap::new();
    backend.inject_headers(&account, "gh", Some("bad\u{0}key"), &image, &mut headers);
    assert_eq!(headers.get("copilot-vision-request").unwrap(), "true");
    assert!(headers.get("x-interaction-id").is_none());
}

#[test]
fn answers_go_by_status() {
    let backend = backend();
    let h = HeaderMap::new();
    let n = RetryNumbers { ms: None, secs_as_ms: None };
    assert_eq!(
        backend.classify(429, "rate_limit", &h, &n, 5),
        Outcome::QuotaExhausted { until_ms: 1_005 }
    );
    assert_eq!(backend.classify(400, "rate_limit", &h, &n, 5), Outcome::Success);
    assert_eq!(backend.classify(503, "", &h, &n, 5), Outcome::Transient);
    assert_eq!(backend.classify(600, "", &h, &n, 5), Outcome::Success);
    assert!(backend.usage_is_chat("/v1/chat/completions"));
    assert!(!backend.usage_is_chat("/v1/responses"));
    assert_eq!(backend.id(), BackendId::Copilot);
}

#[test]
fn domains_are_normalized() {
    assert_eq!(normalize_domain("https://http://a.b//"), "a.b");
    assert_eq!(normalize_domain("github.com"), "github.com");
    let backend = CopilotBackend { cooldown_ms: 1, upstream: Some("http://up".into()) };
    let account = new_account(BackendId::Copilot, "x".into());
    assert_eq!(backend.base_for(&account), "http://up");
}

fn poll(token: Option<&str>, error: Option<&str>) -> DeviceCodePoll {
    DeviceCodePoll {
        access_token: token.map(str::to_string),
        error: error.map(str::to_string),
        interval: Some(9),
    }
}

#[test]
fn polls_are_told_apart() {
    assert_eq!(check_poll(poll(Some("t"), None)).unwrap(), "t");
    assert!(matches!(
        check_poll(poll(None, Some("authorization_pending"))),
        Err(AuthError::Pending { interval: Some(9) })
    ));
    assert!(matches!(
        check_poll(poll(Some("t"), Some("slow_down"))),
        Err(AuthError::SlowDown { interval: Some(9) })
    ));
    assert_eq!(
        check_poll(poll(None, Some("denied"))).unwrap_err().message(),
        "authorization failed: denied"
    );
    assert_eq!(
        check_poll(poll(None, None)).unwrap_err().message(),
        "authorization failed: no access token in response"
    );
    assert!(matches!(check_status(500), Err(AuthError::Status(500))));
    assert!(check_status(204).is_ok());
    assert_eq!(AuthError::Http("x".into()).message(), "request failed: x");
    assert_eq!(AuthError::Status(7).message(), "unexpected status 7");
    assert_eq!(AuthError::Pending { interval: None }.message(), "pending");
    assert_eq!(AuthError::SlowDown { interval: None }.message(), "slow down");
}

#[test]
fn poll_intervals() {
    assert_eq!(first_interval(None), 5);
    assert_eq!(first_interval(Some(0)), 1);
    assert_eq!(wait_ms(5), Some(8_000));
    assert_eq!(wait_ms(u64::MAX), None);
    let next = |e: AuthError| match after_poll_error(&e, 5) {
        PollStep::Wait(n) => n,
        PollStep::Fail(m) => panic!("{m}"),
    };
    assert_eq!(next(AuthError::Pending { interval: None }), 5);
    assert_eq!(next(AuthError::Pending { interval: Some(2) }), 2);
    assert_eq!(next(AuthError::SlowDown { interval: None }), 10);
    assert_eq!(next(AuthError::SlowDown { interval: Some(30) }), 30);
    match after_poll_error(&AuthError::Status(500), 5) {
        PollStep::Fail(m) => assert_eq!(m, "unexpected status 500"),
        other => panic!("expected failure, got {other:?}"),
    }
}

#[test]
fn github_users() {
    assert_eq!(parse_github_user(&json(r#"{"login":"l","name":"n"}"#)).as_deref(), Some("l"));
    assert_eq!(parse_github_user(&json(r#"{"login":1,"name":"n"}"#)).as_deref(), Some("n"));
    assert_eq!(parse_github_user(&json(r#"{"login":"","name":"n"}"#)), None);
    assert_eq!(parse_github_user(&json("{}")), None);
}

#[test]
fn sign_in_labels_and_renews() {
    let a = finish_flow(false, None, "t", Some("octo".into()), None, 3).unwrap();
    assert_eq!((a.label.as_str(), a.refresh_token.as_deref()), ("octo", Some("t")));
    assert_eq!(a.backend, BackendId::Copilot);
    let b = finish_flow(false, None, "t", None, Some("https://e.ghe.com".into()), 3).unwrap();
    assert_eq!(b.label, "https://e.ghe.com");
    assert_eq!(b.enterprise_url.as_deref(), Some("https://e.ghe.com"));
    assert_eq!(finish_flow(false, None, "t", None, None, 3).unwrap().label, "github");
    let mut old = new_account(BackendId::Copilot, "kept".into());
    old.status = AccountStatus::Disabled;
    old.reset_at = 8;
    let c = finish_flow(true, Some(&old), "new", None, None, 3).unwrap();
    assert_eq!((c.id.as_str(), c.label.as_str()), (old.id.as_str(), "kept"));
    assert!(c.healthy());
    assert_eq!((c.reset_at, c.updated_at), (0, 3));
    assert_eq!(
        finish_flow(true, None, "t", None, None, 3).unwrap_err(),
        "account being replaced no longer exists"
    );
}

#[test]
fn fallback_catalog_is_complete() {
    let models = fallback_catalog();
    assert_eq!(models.len(), 5);
    assert_eq!(models[0].id, "gpt-4.1");
    assert_eq!((models[0].context, models[0].input, models[0].output), (1_000_000, 1_000_000, 128_000));
}
