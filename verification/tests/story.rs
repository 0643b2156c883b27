use http::HeaderMap;
use std::collections::{BTreeMap, BTreeSet};
use underclass::codex::CodexBackend;
use underclass::copilot::CopilotBackend;
use underclass::health::RetryNumbers;
use underclass::json::parse_json;
use underclass::models::{Account, AccountStatus, BackendId, ModelInfo};
use underclass::pool::PoolCore;
use underclass::provider::Backend;
use underclass::proxy::{
    admitted, extract_sticky_key, models, own_answer, requested_model, retry_after_secs,
    unauthorized, with_counts, Answer, AttemptAction, AttemptEvent, AttemptRun, Final, InferAction,
    InferEvent, InferRun, Outbound, Passthrough, Renewal, RequestContext, RequestLog, Shared,
    UsageSupport,
};
use underclass::store::UsageRecord;
use underclass::tokens::{access_plan, TokenPlan};
use underclass::usage::UsageTap;

fn account(id: &str, backend: BackendId, token: &str) -> Account {
    Account {
        id: id.into(),
        backend,
        label: id.into(),
        refresh_token: Some(format!("refresh-{id}")),
        access_token: Some(token.into()),
        expires_at: 3_600_000,
        token_refreshed_at: 0,
        account_id: Some(format!("chatgpt-{id}")),
        residency: None,
        enterprise_url: None,
        status: AccountStatus::Healthy,
        reset_at: 0,
        created_at: 0,
        updated_at: 0,
    }
}

fn codex_account(id: &str, token: &str) -> Account {
    account(id, BackendId::Codex, token)
}

fn copilot_account(id: &str, token: &str) -> Account {
    let mut a = account(id, BackendId::Copilot, "unused-access");
    a.refresh_token = Some(token.to_string());
    a
}

fn model(id: &str) -> ModelInfo {
    ModelInfo { id: id.into(), name: id.into(), context: 400_000, input: 272_000, output: 128_000 }
}

/// The pool, its store and the upstreams, all in one place.
struct World {
    shared: Shared,
    stored: Vec<Account>,
    records: Vec<UsageRecord>,
    catalog: Vec<ModelInfo>,
    failing: BTreeSet<String>,
    /// What the issuer renews credentials to; without an entry it is out of reach.
    issued: BTreeMap<String, String>,
    /// The tokens that the upstreams were sent.
    sent: Vec<String>,
    rejected_for_quota: Vec<String>,
    now: i64,
}

/// What the client sees.
struct Reply {
    status: u16,
    content_type: String,
    body: String,
    retry_after: Option<i64>,
}

impl World {
    fn new(accounts: Vec<Account>, served: &str) -> World {
        let catalog = vec![model(served)];
        World {
            shared: Shared {
                pool: PoolCore::new(accounts.clone(), Vec::new(), &catalog, &catalog),
                support: UsageSupport::new(),
                log: RequestLog::new(),
            },
            stored: accounts,
            records: Vec::new(),
            catalog,
            failing: BTreeSet::new(),
            issued: BTreeMap::new(),
            sent: Vec::new(),
            rejected_for_quota: Vec::new(),
            now: 1_000,
        }
    }

    fn stored(&self, id: &str) -> &Account {
        self.stored.iter().find(|a| a.id == id).unwrap()
    }

    fn store_status(&mut self, id: &str, status: AccountStatus, reset_at: i64) {
        let a = self.stored.iter_mut().find(|a| a.id == id).unwrap();
        a.status = status;
        a.reset_at = reset_at;
    }

    /// The upstreams: they answer by the token that a request carries.
    fn upstream(&mut self, out: &Outbound) -> (u16, String, String) {
        let header = out.headers.get("authorization").unwrap().to_str().unwrap();
        let bearer = header.strip_prefix("Bearer ").unwrap().to_string();
        self.sent.push(bearer.clone());
        let json = "application/json".to_string();
        if bearer.starts_with("bad-") {
            return (401, json, r#"{"error":{"message":"bad token"}}"#.into());
        }
        if self.failing.contains(&bearer) {
            self.rejected_for_quota.push(bearer);
            let body =
                r#"{"error":{"code":"usage_limit_reached","message":"usage limit reached"}}"#;
            return (429, json, body.into());
        }
        if out.streams {
            let body = format!(
                "data: {{\"type\":\"response.started\",\"account\":\"{bearer}\"}}\n\ndata: {{\"type\":\"output_text.delta\",\"delta\":\"hello from {bearer}\"}}\n\ndata: {{\"type\":\"response.completed\",\"response\":{{\"usage\":{{\"input_tokens\":7,\"output_tokens\":3}}}}}}\n\ndata: [DONE]\n\n"
            );
            (200, "text/event-stream".into(), body)
        } else {
            (200, json, format!(r#"{{"account":"{bearer}","output_text":"hello from {bearer}"}}"#))
        }
    }

    fn attempt<B: Backend>(
        &mut self,
        backend: &B,
        ctx: &RequestContext,
        selection: &underclass::pool::Selection,
        renewals: &mut Vec<Renewal>,
    ) -> Result<Reply, Option<Passthrough>> {
        let mut run = AttemptRun::start(&mut self.shared.pool, selection, renewals).unwrap();
        let mut event = match (run.renewed.clone(), access_plan(&run.account, self.now)) {
            (Some(token), _) | (None, TokenPlan::Use(token)) => AttemptEvent::Token(token),
            _ => AttemptEvent::NoToken,
        };
        let mut last = (0, String::new(), String::new());
        let mut streams = false;
        let end = loop {
            let (action, effects) =
                run.step(event, backend, ctx, renewals, &mut self.shared, self.now, 1);
            self.records.extend(effects.record);
            if let Some((status, reset_at)) = effects.status {
                self.store_status(&selection.account_id, status, reset_at);
            }
            event = match action {
                AttemptAction::Send(out) => {
                    streams = out.streams;
                    last = self.upstream(&out);
                    AttemptEvent::Answered(Answer {
                        status: last.0,
                        headers: HeaderMap::new(),
                        numbers: RetryNumbers { ms: None, secs_as_ms: None },
                        content_type: Some(last.1.clone()),
                        text: if last.0 == 200 { String::new() } else { last.2.clone() },
                    })
                }
                AttemptAction::Refresh => match self.issued.get(&selection.account_id) {
                    Some(token) => AttemptEvent::Refreshed(token.clone()),
                    None => AttemptEvent::RefreshFailed,
                },
                AttemptAction::Respond(record) => {
                    let mut tap = UsageTap::new(streams, backend.usage_is_chat(&ctx.path));
                    tap.feed(last.2.as_bytes());
                    self.records.push(with_counts(record, tap.counts()));
                    break Ok(Reply {
                        status: last.0,
                        content_type: last.1.clone(),
                        body: last.2.clone(),
                        retry_after: None,
                    });
                }
                AttemptAction::Failover(pass) => break Err(pass),
            };
        };
        self.shared.pool.release(&selection.account_id);
        end
    }

    fn post(&mut self, request_id: &str, path: &str, text: &str) -> Reply {
        let body = parse_json(text.as_bytes()).unwrap();
        let ctx = RequestContext {
            request_id: request_id.into(),
            path: path.into(),
            model: requested_model(&body),
            sticky: extract_sticky_key(&body, None),
            body: text.as_bytes().to_vec(),
        };
        let codex = CodexBackend { cooldown_ms: 400, upstream: None };
        let copilot = CopilotBackend { cooldown_ms: 400, upstream: None };
        let mut run = InferRun::new();
        let mut event = InferEvent::Begin;
        let mut renewals = Vec::new();
        let mut reply = None;
        loop {
            let sticky = ctx.sticky.as_deref();
            let action = run.step(event, &mut self.shared.pool, self.now, sticky, &ctx.model);
            event = match action {
                InferAction::TryReset => InferEvent::ResetDone(false),
                InferAction::TryAccount(selection) => {
                    let end = match selection.backend {
                        BackendId::Codex => self.attempt(&codex, &ctx, &selection, &mut renewals),
                        BackendId::Copilot => {
                            self.attempt(&copilot, &ctx, &selection, &mut renewals)
                        }
                    };
                    match end {
                        Ok(answer) => {
                            reply = Some(answer);
                            InferEvent::Responded
                        }
                        Err(pass) => InferEvent::FailedOver(pass),
                    }
                }
                InferAction::Finish(end) => return reply.unwrap_or_else(|| self.own(end)),
            };
        }
    }

    fn own(&self, end: Final) -> Reply {
        let retry_after = match &end {
            Final::Saturated { until_ms } => Some(retry_after_secs(*until_ms, self.now)),
            _ => None,
        };
        match (own_answer(&end), end) {
            (Some((status, _)), _) => {
                Reply { status, content_type: String::new(), body: String::new(), retry_after }
            }
            (None, Final::Upstream(p)) => {
                Reply { status: p.status, content_type: p.content_type, body: p.body, retry_after }
            }
            (None, other) => panic!("unexpected end {other:?}"),
        }
    }
}

fn asks(key: Option<&str>, stream: bool) -> String {
    match key {
        Some(k) => format!(
            r#"{{"model":"gpt-5.5","input":"hi","stream":{stream},"prompt_cache_key":"{k}"}}"#
        ),
        None => format!(r#"{{"model":"gpt-5.5","input":"hi","stream":{stream}}}"#),
    }
}

#[test]
fn e2e_full_pool_story() {
    let mut world = World::new(
        vec![codex_account("acc-1", "tok-acc-1"), copilot_account("acc-2", "cop-acc-2")],
        "gpt-5.5",
    );
    let path = "/v1/responses";

    // success, streaming and stickiness
    let r1 = world.post("r1", path, &asks(Some("sess-a"), true));
    assert_eq!(r1.status, 200);
    assert_eq!(r1.content_type, "text/event-stream");
    assert!(r1.body.contains("[DONE]"), "stream passthrough broken: {}", r1.body);
    assert!(r1.body.contains("hello from tok-acc-1"), "unexpected payload: {}", r1.body);
    assert_eq!(world.records[0].input_tokens, Some(7));
    let r2 = world.post("r2", path, &asks(Some("sess-a"), true));
    assert!(r2.body.contains("hello from tok-acc-1"), "sticky session moved: {}", r2.body);

    // a request of no session is served by the pool
    let r3 = world.post("r3", path, &asks(None, false));
    assert_eq!(r3.status, 200);

    // quota on the bound account: transparent failover to the other backend
    world.failing.insert("tok-acc-1".into());
    let r4 = world.post("r4", path, &asks(Some("sess-a"), true));
    assert_eq!(r4.status, 200, "quota on bound account must fail over");
    assert!(r4.body.contains("hello from cop-acc-2"), "failover went elsewhere: {}", r4.body);
    assert!(world.rejected_for_quota.contains(&"tok-acc-1".to_string()));
    let attempts = world.shared.log.entries().iter().filter(|e| e.request_id == "r4").count();
    assert_eq!(attempts, 2, "both attempts must share the id of the request");

    // both accounts exhausted: fail fast with the earliest reset
    world.failing.insert("cop-acc-2".into());
    let r5 = world.post("r5", path, &asks(Some("sess-c"), true));
    assert_eq!(r5.status, 429, "saturation must fail fast");
    assert_eq!(r5.retry_after, Some(1));
    let cooling = world.stored.iter().filter(|a| a.status == AccountStatus::Cooling).count();
    assert_eq!(cooling, 2, "both accounts should be cooling");

    // the end of the cooldown restores the pool
    world.now += 600;
    world.failing.clear();
    let r6 = world.post("r6", path, &asks(Some("sess-d"), true));
    assert_eq!(r6.status, 200, "accounts must return to rotation after cooldown");
    assert!(r6.body.contains("hello from tok-acc-"), "served by {}", r6.body);

    // stored rows of accounts whose cooldown has ended are put right
    let mut fresh =
        PoolCore::new(world.stored.clone(), Vec::new(), &world.catalog, &world.catalog);
    let lapsed = fresh.sync_from_store(world.stored.clone(), world.now);
    for id in &lapsed {
        world.store_status(id, AccountStatus::Healthy, 0);
    }
    assert!(world.stored.iter().all(|a| a.status == AccountStatus::Healthy));
    assert_eq!(fresh.account("acc-1").unwrap().status, AccountStatus::Healthy);

    // the history names the serving account
    let entry = world.shared.log.entries().iter().find(|e| e.sticky == "sess-a").unwrap();
    assert_eq!(entry.account.as_deref(), Some("acc-1"));
    assert_eq!(entry.backend.as_deref(), Some("codex"));
    assert_eq!(entry.status, 200);

    // a rejected credential fails over and marks the account
    let mut other = World::new(
        vec![codex_account("acc-1", "bad-token"), copilot_account("acc-2", "tok-good")],
        "m",
    );
    let text = r#"{"model":"m","messages":[{"role":"user","content":"hi"}]}"#;
    let reply = other.post("r7", "/v1/chat/completions", text);
    assert_eq!(reply.status, 200, "401 on codex must fail over to copilot account");
    assert_eq!(other.stored("acc-1").status, AccountStatus::AuthError);
    assert_eq!(other.stored("acc-2").status, AccountStatus::Healthy);

    // where no other account is left, the client gets the rejection itself
    let mut alone = World::new(vec![codex_account("acc-1", "bad-token")], "m");
    let reply = alone.post("r8", "/v1/responses", text);
    assert_eq!(reply.status, 401, "an upstream answer must not be lost");
    assert_eq!(reply.body, r#"{"error":{"message":"bad token"}}"#);
    assert_eq!(alone.stored("acc-1").status, AccountStatus::AuthError);

    // the models, and the key
    let listed = models(&world.catalog, &world.catalog);
    assert!(listed.iter().any(|m| m.model.id == "gpt-5.5"));
    assert!(admitted(Some("test-key"), Some("Bearer test-key")));
    assert!(!admitted(Some("test-key"), None), "missing proxy key must be rejected");
    assert_eq!(unauthorized().0, 401);

    // no request is in flight any more
    assert_eq!(world.shared.pool.inflight("acc-1"), Some(0));
    assert_eq!(world.shared.pool.inflight("acc-2"), Some(0));
}

const CHAT: &str = r#"{"model":"m","messages":[{"role":"user","content":"hi"}]}"#;

fn three() -> Vec<Account> {
    vec![codex_account("a", "bad-a"), codex_account("b", "tok-b"), codex_account("c", "tok-c")]
}

#[test]
fn renewed_credential_serves_the_request() {
    let mut world = World::new(three(), "m");
    world.issued.insert("a".into(), "new-a".into());
    let reply = world.post("r", "/v1/responses", CHAT);
    assert_eq!(reply.status, 200);
    assert_eq!(world.sent, ["bad-a", "new-a"]);
    assert_eq!(world.stored("a").status, AccountStatus::Healthy);
    assert_eq!(world.shared.pool.inflight("a"), Some(0));
    // the same on the account of a session
    let mut world = World::new(three(), "m");
    world.issued.insert("a".into(), "new-a".into());
    let text = r#"{"model":"m","input":"hi","prompt_cache_key":"k"}"#;
    assert_eq!(world.post("r", "/v1/responses", text).status, 200);
    assert_eq!(world.sent, ["bad-a", "new-a"]);
}

#[test]
fn retry_after_a_renewal_counts_as_an_attempt() {
    // the first account is rejected twice, the second is out of quota: three
    // attempts, and the third account is not tried
    let mut world = World::new(three(), "m");
    world.issued.insert("a".into(), "bad-again".into());
    world.failing.insert("tok-b".into());
    let reply = world.post("r", "/v1/responses", CHAT);
    assert_eq!(world.sent, ["bad-a", "bad-again", "tok-b"]);
    assert_eq!(reply.status, 429);
    assert!(reply.body.contains("usage_limit_reached"));
    assert_eq!(world.stored("a").status, AccountStatus::AuthError);
    assert_eq!(world.stored("b").status, AccountStatus::Cooling);
    assert_eq!(world.stored("c").status, AccountStatus::Healthy);
    // two attempts on two accounts: the second account is not tried
    let mut world = World::new(three()[..2].to_vec(), "m");
    world.issued.insert("a".into(), "bad-again".into());
    assert_eq!(world.post("r", "/v1/responses", CHAT).status, 401);
    assert_eq!(world.sent, ["bad-a", "bad-again"]);
    // on one account there is no attempt left for the renewed token
    let mut world = World::new(three()[..1].to_vec(), "m");
    world.issued.insert("a".into(), "new-a".into());
    let reply = world.post("r", "/v1/responses", CHAT);
    assert_eq!(world.sent, ["bad-a"]);
    assert_eq!((reply.status, reply.body.as_str()), (401, r#"{"error":{"message":"bad token"}}"#));
    assert_eq!(world.stored("a").status, AccountStatus::Healthy);
}
