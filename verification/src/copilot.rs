//! GitHub Copilot subscriptions.
use crate::codex::{either, first_text_of, is_success, lemma_bearer};
use crate::flows::new_account;
use crate::headers::{set_header, with_field, with_valid_field};
use crate::health::{status_outcome, RetryNumbers};
use crate::json::{
    find_member, get_in, is_text, last_named, lemma_items, lemma_members, member, text_in, text_of,
    truth_in, truth_of, whole_in, whole_of, Json, JsonView,
};
use crate::models::{
    is_uuid_text, model_views, Account, AccountStatus, BackendId, ModelInfo, ModelView, Outcome,
};
use crate::provider::{chat_path, is_chat_path, Backend, Fields};
use crate::text::{
    below, dec, dec_u64, is_below, join2, law_order_total, law_order_transitive, lower,
    opt_str_view, opt_view, trim_end_matches, trim_end_of, trim_start_matches, trim_start_of,
};
use http::HeaderMap;
use vstd::prelude::*;
use vstd::utf8::encode_utf8;

verus! {

pub const CLIENT_ID: &'static str = "Ov23li8tweQw6odWQebz";

pub const API_VERSION: &'static str = "2026-06-01";

pub const DEFAULT_API_BASE: &'static str = "https://api.githubcopilot.com";

pub const USER_AGENT: &'static str = "opencode/0.1.0 (underclass-pool-proxy)";

// ---------------------------------------------------------------------------
// Addresses
// ---------------------------------------------------------------------------

/// The host that an address names: without scheme and trailing slashes.
pub open spec fn domain_of(url: Seq<char>) -> Seq<char> {
    trim_end_of(trim_start_of(trim_start_of(url, "https://"@), "http://"@), '/')
}

/// The host that an address names.
pub fn normalize_domain(url: &str) -> (r: String)
    ensures
        r@ == domain_of(url@),
{
    let rest = trim_start_matches(url, "https://");
    let rest = trim_start_matches(rest.as_str(), "http://");
    trim_end_matches(rest.as_str(), '/')
}

/// Where the requests of an account go: to the host of its enterprise, else to
/// the configured upstream, else to the service.
pub open spec fn base_of(enterprise: Option<Seq<char>>, upstream: Option<Seq<char>>) -> Seq<char> {
    match enterprise {
        Some(url) => "https://copilot-api."@ + domain_of(url),
        None => match upstream {
            Some(u) => u,
            None => DEFAULT_API_BASE@,
        },
    }
}

/// Where the requests of the account go.
pub fn api_base(account: &Account, upstream: Option<&str>) -> (r: String)
    ensures
        r@ == base_of(opt_view(account.enterprise_url), opt_str_view(upstream)),
{
    match &account.enterprise_url {
        Some(url) => join2("https://copilot-api.", normalize_domain(url.as_str()).as_str()),
        None => match upstream {
            Some(u) => u.to_owned(),
            None => DEFAULT_API_BASE.to_owned(),
        },
    }
}

// ---------------------------------------------------------------------------
// Sign-in
// ---------------------------------------------------------------------------

/// The start of a device sign-in.
#[derive(Debug)]
pub struct DeviceCodeInit {
    pub verification_uri: String,
    pub user_code: String,
    pub device_code: String,
    pub interval: Option<u64>,
}

/// The answer to a poll of a device sign-in.
#[derive(Debug)]
pub struct DeviceCodePoll {
    pub access_token: Option<String>,
    pub error: Option<String>,
    pub interval: Option<u64>,
}

/// Why a sign-in failed, or has to wait.
#[derive(Debug)]
pub enum AuthError {
    /// The request could not be made: what went wrong, in words.
    Http(String),
    Status(u16),
    Failed(String),
    Pending { interval: Option<u64> },
    SlowDown { interval: Option<u64> },
}

impl AuthError {
    pub open spec fn words(self) -> Seq<char> {
        match self {
            AuthError::Http(e) => "request failed: "@ + e@,
            AuthError::Status(s) => "unexpected status "@ + dec(s as int),
            AuthError::Failed(e) => "authorization failed: "@ + e@,
            AuthError::Pending { .. } => "pending"@,
            AuthError::SlowDown { .. } => "slow down"@,
        }
    }

    /// The error in words.
    pub fn message(&self) -> (r: String)
        ensures
            r@ == self.words(),
    {
        match self {
            AuthError::Http(e) => join2("request failed: ", e.as_str()),
            AuthError::Status(s) => join2("unexpected status ", dec_u64(*s as u64).as_str()),
            AuthError::Failed(e) => join2("authorization failed: ", e.as_str()),
            AuthError::Pending { .. } => "pending".to_owned(),
            AuthError::SlowDown { .. } => "slow down".to_owned(),
        }
    }
}

/// Checks the status of an answer that is due.
pub fn check_status(status: u16) -> (r: Result<(), AuthError>)
    ensures
        match r {
            Ok(()) => is_success(status),
            Err(e) => !is_success(status) && e == AuthError::Status(status),
        },
{
    if 200 <= status && status < 300 {
        Ok(())
    } else {
        Err(AuthError::Status(status))
    }
}

/// Reads the answer to a poll: the token, or why there is none yet or at all.
pub fn check_poll(poll: DeviceCodePoll) -> (r: Result<String, AuthError>)
    ensures
        match r {
            Ok(token) => poll.error is None && opt_view(poll.access_token) == Some(token@),
            Err(AuthError::Pending { interval }) => interval == poll.interval && opt_view(
                poll.error,
            ) == Some("authorization_pending"@),
            Err(AuthError::SlowDown { interval }) => interval == poll.interval && opt_view(
                poll.error,
            ) == Some("slow_down"@),
            Err(AuthError::Failed(m)) => match opt_view(poll.error) {
                Some(e) => e != "authorization_pending"@ && e != "slow_down"@ && m@ == e,
                None => poll.access_token is None && m@ == "no access token in response"@,
            },
            Err(_) => false,
        },
{
    match poll.error {
        Some(e) => {
            if is_text(Some(e.as_str()), "authorization_pending") {
                Err(AuthError::Pending { interval: poll.interval })
            } else if is_text(Some(e.as_str()), "slow_down") {
                proof {
                    reveal_strlit("authorization_pending");
                    reveal_strlit("slow_down");
                    assert("authorization_pending"@.len() != "slow_down"@.len());
                }
                Err(AuthError::SlowDown { interval: poll.interval })
            } else {
                Err(AuthError::Failed(e))
            }
        },
        None => match poll.access_token {
            Some(token) => Ok(token),
            None => Err(AuthError::Failed("no access token in response".to_owned())),
        },
    }
}

/// The milliseconds before the next poll, three seconds on top of the interval,
/// if they can be told.
pub open spec fn wait_of(interval: u64) -> Option<u64> {
    if interval * 1000 + 3000 <= u64::MAX {
        Some((interval * 1000 + 3000) as u64)
    } else {
        None
    }
}

/// The milliseconds before the next poll.
pub fn wait_ms(interval: u64) -> (r: Option<u64>)
    ensures
        r == wait_of(interval),
{
    let wide: u128 = interval as u128 * 1000 + 3000;
    if wide <= u64::MAX as u128 {
        Some(wide as u64)
    } else {
        None
    }
}

/// The seconds between the first polls: what the service asks for, else five; at
/// least one.
pub fn first_interval(asked: Option<u64>) -> (r: u64)
    ensures
        r == (match asked {
            Some(0) => 1,
            Some(n) => n,
            None => 5,
        }),
{
    match asked {
        Some(n) => if n == 0 {
            1
        } else {
            n
        },
        None => 5,
    }
}

/// What a poll that gave no token leads to: the interval until the next one, or
/// the end.
#[derive(Debug)]
pub enum PollStep {
    Wait(u64),
    Fail(String),
}

/// The step after a poll that gave no token, where the polls came every
/// `current` seconds.
pub fn after_poll_error(error: &AuthError, current: u64) -> (r: PollStep)
    requires
        wait_of(current) is Some,
    ensures
        match r {
            PollStep::Wait(next) => match *error {
                AuthError::Pending { interval } => next == (match interval {
                    Some(n) => n,
                    None => current,
                }),
                AuthError::SlowDown { interval } => next == (match interval {
                    Some(n) => n as int,
                    None => current + 5,
                }),
                _ => false,
            },
            PollStep::Fail(m) => !(*error is Pending) && !(*error is SlowDown) && m@
                == error.words(),
        },
{
    match error {
        AuthError::Pending { interval } => PollStep::Wait(
            match interval {
                Some(n) => *n,
                None => current,
            },
        ),
        AuthError::SlowDown { interval } => PollStep::Wait(
            match interval {
                Some(n) => *n,
                None => current + 5,
            },
        ),
        e => PollStep::Fail(e.message()),
    }
}

/// The owner that the description of a GitHub user names: the login, else the
/// name, unless that is empty.
pub open spec fn user_named(body: JsonView) -> Option<Seq<char>> {
    match either(text_in(body.get("login"@)), text_in(body.get("name"@))) {
        Some(s) if s.len() > 0 => Some(s),
        _ => None,
    }
}

/// The owner that the description of a GitHub user names.
pub fn parse_github_user(body: &Json) -> (r: Option<String>)
    ensures
        opt_view(r) == user_named(body@),
{
    let login = text_of(body.get("login"));
    let found = match login {
        Some(s) => Some(s),
        None => text_of(body.get("name")),
    };
    match found {
        Some(s) => if s.is_empty() {
            None
        } else {
            Some(s.to_owned())
        },
        None => None,
    }
}

/// The label of a new account: its owner, else its enterprise, else `github`.
pub open spec fn label_of(identity: Option<Seq<char>>, enterprise: Option<Seq<char>>) -> Seq<char> {
    match either(identity, enterprise) {
        Some(s) => s,
        None => "github"@,
    }
}

/// The end of a sign-in: the account that is stored, or why there is none. A
/// sign-in that renews an account needs that account to be there still.
pub fn finish_flow(
    replaces: bool,
    existing: Option<&Account>,
    token: &str,
    identity: Option<String>,
    enterprise_url: Option<String>,
    ts: i64,
) -> (r: Result<Account, String>)
    ensures
        match r {
            Ok(a) => {
                &&& opt_view(a.refresh_token) == Some(token@)
                &&& if replaces {
                    &&& existing is Some
                    &&& a == (Account {
                        refresh_token: a.refresh_token,
                        status: AccountStatus::Healthy,
                        reset_at: 0,
                        updated_at: ts,
                        ..*existing->0
                    })
                } else {
                    &&& a.backend == BackendId::Copilot
                    &&& is_uuid_text(a.id@)
                    &&& a.label@ == label_of(opt_view(identity), opt_view(enterprise_url))
                    &&& opt_view(a.enterprise_url) == opt_view(enterprise_url)
                    &&& a.is_healthy() && a.reset_at == 0
                    &&& a.access_token is None && a.account_id is None && a.residency is None
                    &&& a.expires_at == 0 && a.token_refreshed_at == 0
                    &&& a.created_at == a.updated_at
                }
            },
            Err(m) => replaces && existing is None && m@
                == "account being replaced no longer exists"@,
        },
{
    if replaces {
        match existing {
            Some(found) => {
                let mut account = found.clone();
                account.refresh_token = Some(token.to_owned());
                account.status = AccountStatus::Healthy;
                account.reset_at = 0;
                account.updated_at = ts;
                Ok(account)
            },
            None => Err("account being replaced no longer exists".to_owned()),
        }
    } else {
        let label = match first_text_of(identity, enterprise_url.clone()) {
            Some(s) => s,
            None => "github".to_owned(),
        };
        let mut account = new_account(BackendId::Copilot, label);
        account.enterprise_url = enterprise_url;
        account.refresh_token = Some(token.to_owned());
        Ok(account)
    }
}

// ---------------------------------------------------------------------------
// The catalog
// ---------------------------------------------------------------------------

/// The model that an entry of the catalog describes, if it can be used: it has
/// an id, is not disabled, declares its limits and says whether it calls tools.
pub open spec fn usable_model(item: JsonView) -> Option<ModelView> {
    let id = text_in(item.get("id"@));
    let limits = get_in(item.get("capabilities"@), "limits"@);
    let output = whole_in(get_in(limits, "max_output_tokens"@));
    let prompt = whole_in(get_in(limits, "max_prompt_tokens"@));
    let tools = truth_in(get_in(get_in(item.get("capabilities"@), "supports"@), "tool_calls"@));
    if id is Some && id->0.len() > 0 && text_in(get_in(item.get("policy"@), "state"@)) != Some(
        "disabled"@,
    ) && output is Some && prompt is Some && tools is Some {
        Some(
            ModelView {
                id: id->0,
                name: match text_in(item.get("name"@)) {
                    Some(n) => n,
                    None => id->0,
                },
                context: match whole_in(get_in(limits, "max_context_window_tokens"@)) {
                    Some(c) => c as int,
                    None => prompt->0 as int,
                },
                input: prompt->0 as int,
                output: output->0 as int,
            },
        )
    } else {
        None
    }
}

fn read_model(item: &Json) -> (r: Option<ModelInfo>)
    ensures
        match r {
            Some(m) => usable_model(item@) == Some(m@),
            None => usable_model(item@) is None,
        },
{
    let id = match text_of(item.get("id")) {
        Some(s) => s,
        None => return None,
    };
    if id.is_empty() {
        return None;
    }
    if is_text(text_of(member(item.get("policy"), "state")), "disabled") {
        return None;
    }
    let capabilities = item.get("capabilities");
    let limits = member(capabilities, "limits");
    let max_output = match whole_of(member(limits, "max_output_tokens")) {
        Some(n) => n,
        None => return None,
    };
    let max_prompt = match whole_of(member(limits, "max_prompt_tokens")) {
        Some(n) => n,
        None => return None,
    };
    if truth_of(member(member(capabilities, "supports"), "tool_calls")).is_none() {
        return None;
    }
    let context = match whole_of(member(limits, "max_context_window_tokens")) {
        Some(n) => n,
        None => max_prompt,
    };
    let name = match text_of(item.get("name")) {
        Some(s) => s,
        None => id,
    };
    Some(
        ModelInfo {
            id: id.to_owned(),
            name: name.to_owned(),
            context,
            input: max_prompt,
            output: max_output,
        },
    )
}

/// The models in order of id with `m` put in, behind those with its id.
pub open spec fn placed(s: Seq<ModelView>, m: ModelView) -> Seq<ModelView>
    decreases s.len(),
{
    if s.len() == 0 || !below(m.id, s.last().id) {
        s.push(m)
    } else {
        placed(s.drop_last(), m).push(s.last())
    }
}

/// The usable models that the entries describe, in order of id.
pub open spec fn usable_models(items: Seq<JsonView>) -> Seq<ModelView>
    decreases items.len(),
{
    if items.len() == 0 {
        Seq::empty()
    } else {
        match usable_model(items.last()) {
            Some(m) => placed(usable_models(items.drop_last()), m),
            None => usable_models(items.drop_last()),
        }
    }
}

fn place(list: &mut Vec<ModelInfo>, m: ModelInfo)
    ensures
        model_views(final(list)@) == placed(model_views(old(list)@), m@),
{
    let ghost start = list@;
    let mut at: usize = list.len();
    assert(model_views(start).take(at as int) =~= model_views(start));
    assert(model_views(start).skip(at as int) =~= Seq::<ModelView>::empty());
    assert(placed(model_views(start), m@) + Seq::<ModelView>::empty() =~= placed(
        model_views(start),
        m@,
    ));
    while at > 0 && is_below(m.id.as_str(), list[at - 1].id.as_str())
        invariant
            list@ == start,
            at <= list@.len(),
            placed(model_views(start), m@) == placed(model_views(start).take(at as int), m@)
                + model_views(start).skip(at as int),
        decreases at,
    {
        proof {
            let v = model_views(start);
            let t = v.take(at as int);
            assert(t.drop_last() =~= v.take(at - 1));
            assert(t.last() == v[at - 1]);
            assert(placed(t.drop_last(), m@).push(t.last()) + v.skip(at as int) =~= placed(
                v.take(at - 1),
                m@,
            ) + v.skip(at - 1));
        }
        at = at - 1;
    }
    proof {
        let v = model_views(start);
        if at > 0 {
            assert(v.take(at as int).last() == v[at - 1]);
        }
        assert(placed(v.take(at as int), m@) == v.take(at as int).push(m@));
        assert(v.take(at as int).push(m@) + v.skip(at as int) =~= v.insert(at as int, m@));
        assert(model_views(start.insert(at as int, m)) =~= v.insert(at as int, m@));
    }
    list.insert(at, m);
}

/// The usable models that the answer of the service lists, in order of id.
pub fn parse_models_response(body: &Json) -> (r: Vec<ModelInfo>)
    ensures
        model_views(r@) == (match get_in(Some(body@), "data"@) {
            Some(JsonView::Array(items)) => usable_models(items),
            _ => Seq::empty(),
        }),
{
    let mut out: Vec<ModelInfo> = Vec::new();
    assert(model_views(out@) =~= Seq::empty());
    let items = match body.get("data") {
        Some(d) => match d.as_array() {
            Some(items) => items,
            None => return out,
        },
        None => return out,
    };
    let ghost all = body@.get("data"@)->0.items()->0;
    for i in 0..items.len()
        invariant
            items@.len() == all.len(),
            forall|j: int| 0 <= j < all.len() ==> (#[trigger] items@[j])@ == all[j],
            model_views(out@) == usable_models(all.take(i as int)),
    {
        assert(all.take(i + 1).drop_last() =~= all.take(i as int));
        assert(items@[i as int]@ == all[i as int]);
        if let Some(m) = read_model(&items[i]) {
            place(&mut out, m);
        }
    }
    assert(all.take(all.len() as int) =~= all);
    out
}

/// The models are in order of id.
pub open spec fn in_order(s: Seq<ModelView>) -> bool {
    forall|i: int, j: int|
        0 <= i < j < s.len() ==> !below((#[trigger] s[j]).id, (#[trigger] s[i]).id)
}

proof fn lemma_placed(s: Seq<ModelView>, m: ModelView)
    requires
        in_order(s),
    ensures
        in_order(placed(s, m)),
        placed(s, m).len() == s.len() + 1,
        forall|x: ModelView| #[trigger] placed(s, m).contains(x) <==> x == m || s.contains(x),
    decreases s.len(),
{
    let p = placed(s, m);
    if s.len() == 0 || !below(m.id, s.last().id) {
        assert forall|i: int, j: int| 0 <= i < j < p.len() implies !below(
            (#[trigger] p[j]).id,
            (#[trigger] p[i]).id,
        ) by {
            if j == s.len() {
                let l = s[s.len() - 1];
                if i < s.len() - 1 {
                    assert(!below(l.id, s[i].id));
                    if below(m.id, s[i].id) {
                        law_order_total(l.id, s[i].id);
                        if l.id != s[i].id {
                            law_order_transitive(m.id, s[i].id, l.id);
                        }
                    }
                }
            } else {
                assert(!below(s[j].id, s[i].id));
            }
        }
        assert forall|x: ModelView| #[trigger] p.contains(x) <==> x == m || s.contains(x) by {
            if x == m {
                assert(p[s.len() as int] == m);
            }
            if s.contains(x) {
                let i = choose|i: int| 0 <= i < s.len() && s[i] == x;
                assert(p[i] == x);
            }
        }
    } else {
        let t = s.drop_last();
        assert forall|i: int, j: int| 0 <= i < j < t.len() implies !below(
            (#[trigger] t[j]).id,
            (#[trigger] t[i]).id,
        ) by {
            assert(!below(s[j].id, s[i].id));
        }
        lemma_placed(t, m);
        let q = placed(t, m);
        assert forall|i: int, j: int| 0 <= i < j < p.len() implies !below(
            (#[trigger] p[j]).id,
            (#[trigger] p[i]).id,
        ) by {
            if j == q.len() {
                assert(q.contains(q[i]));
                if q[i] == m {
                    law_order_total(m.id, s.last().id);
                } else {
                    let k = choose|k: int| 0 <= k < t.len() && t[k] == q[i];
                    assert(!below(s[s.len() - 1].id, s[k].id));
                }
            } else {
                assert(!below(q[j].id, q[i].id));
            }
        }
        assert forall|x: ModelView| #[trigger] p.contains(x) <==> x == m || s.contains(x) by {
            if p.contains(x) {
                let i = choose|i: int| 0 <= i < p.len() && p[i] == x;
                if i < q.len() {
                    assert(q[i] == x);
                    assert(q.contains(x));
                    if x != m {
                        let k = choose|k: int| 0 <= k < t.len() && t[k] == x;
                        assert(s[k] == x);
                    }
                } else {
                    assert(s[s.len() - 1] == x);
                }
            }
            if x == m {
                assert(q.contains(m));
                let i = choose|i: int| 0 <= i < q.len() && q[i] == m;
                assert(p[i] == m);
            }
            if s.contains(x) {
                let k = choose|k: int| 0 <= k < s.len() && s[k] == x;
                if k < t.len() {
                    assert(t[k] == x);
                    assert(t.contains(x));
                    assert(q.contains(x));
                    let i = choose|i: int| 0 <= i < q.len() && q[i] == x;
                    assert(p[i] == x);
                } else {
                    assert(p[q.len() as int] == x);
                }
            }
        }
    }
}

/// The catalog is in order of id and lists exactly the usable models.
pub proof fn law_catalog_lists_usable_models(items: Seq<JsonView>)
    ensures
        in_order(usable_models(items)),
        forall|m: ModelView| #[trigger]
            usable_models(items).contains(m) <==> exists|i: int|
                0 <= i < items.len() && usable_model(#[trigger] items[i]) == Some(m),
    decreases items.len(),
{
    if items.len() > 0 {
        let t = items.drop_last();
        law_catalog_lists_usable_models(t);
        if let Some(last) = usable_model(items.last()) {
            lemma_placed(usable_models(t), last);
        }
        assert forall|m: ModelView| #[trigger] usable_models(items).contains(m) <==> exists|i: int|
            0 <= i < items.len() && usable_model(#[trigger] items[i]) == Some(m) by {
            if usable_models(items).contains(m) {
                if usable_model(items.last()) == Some(m) {
                    assert(usable_model(items[items.len() - 1]) == Some(m));
                } else {
                    assert(usable_models(t).contains(m));
                    let i = choose|i: int|
                        0 <= i < t.len() && usable_model(#[trigger] t[i]) == Some(m);
                    assert(usable_model(items[i]) == Some(m));
                }
            }
            if exists|i: int| 0 <= i < items.len() && usable_model(#[trigger] items[i]) == Some(
                m,
            ) {
                let i = choose|i: int|
                    0 <= i < items.len() && usable_model(#[trigger] items[i]) == Some(m);
                if i < t.len() {
                    assert(usable_model(t[i]) == Some(m));
                    assert(usable_models(t).contains(m));
                }
            }
        }
    }
}

fn listed_model(id: &str, name: &str, context: i64) -> (r: ModelInfo)
    ensures
        r@ == listed_as(id@, name@, context as int),
{
    ModelInfo {
        id: id.to_owned(),
        name: name.to_owned(),
        context,
        input: context,
        output: 128_000,
    }
}

/// A model that takes as much input as its context holds.
pub open spec fn listed_as(id: Seq<char>, name: Seq<char>, context: int) -> ModelView {
    ModelView { id, name, context, input: context, output: 128_000 }
}

/// The models that Copilot accounts serve until a catalog is stored.
pub fn fallback_catalog() -> (r: Vec<ModelInfo>)
    ensures
        model_views(r@) == seq![
            listed_as("gpt-4.1"@, "GPT-4.1"@, 1_000_000),
            listed_as("gpt-5.4"@, "GPT-5.4"@, 400_000),
            listed_as("gpt-5.4-mini"@, "GPT-5.4 Mini"@, 400_000),
            listed_as("gpt-5.4-nano"@, "GPT-5.4 Nano"@, 400_000),
            listed_as("gpt-5.5"@, "GPT-5.5"@, 400_000),
        ],
{
    let mut r: Vec<ModelInfo> = Vec::new();
    r.push(listed_model("gpt-4.1", "GPT-4.1", 1_000_000));
    r.push(listed_model("gpt-5.4", "GPT-5.4", 400_000));
    r.push(listed_model("gpt-5.4-mini", "GPT-5.4 Mini", 400_000));
    r.push(listed_model("gpt-5.4-nano", "GPT-5.4 Nano", 400_000));
    r.push(listed_model("gpt-5.5", "GPT-5.5", 400_000));
    r
}

// ---------------------------------------------------------------------------
// Images
// ---------------------------------------------------------------------------

/// A step into a document: to a member or to an item.
pub enum Step {
    Member(Seq<char>),
    Item(int),
}

/// The part of a document that a path leads to.
pub open spec fn part_at(v: JsonView, path: Seq<Step>) -> Option<JsonView>
    decreases path.len(),
{
    if path.len() == 0 {
        Some(v)
    } else {
        match (v, path[0]) {
            (JsonView::Object(m), Step::Member(k)) => if m.contains_key(k) {
                part_at(m[k], path.skip(1))
            } else {
                None
            },
            (JsonView::Array(s), Step::Item(i)) => if 0 <= i < s.len() {
                part_at(s[i], path.skip(1))
            } else {
                None
            },
            _ => None,
        }
    }
}

/// The part is an object whose `type` is that of an image.
pub open spec fn is_image_part(v: JsonView) -> bool {
    let kind = text_in(v.get("type"@));
    kind == Some("image_url"@) || kind == Some("input_image"@) || kind == Some("image"@)
}

/// The path leads to an image part.
pub open spec fn shows_image(v: JsonView, path: Seq<Step>) -> bool {
    part_at(v, path) matches Some(p) && is_image_part(p)
}

/// Somewhere in the document there is an image part.
pub open spec fn has_image(v: JsonView) -> bool {
    exists|path: Seq<Step>| #[trigger] shows_image(v, path)
}

proof fn lemma_image_below(v: JsonView, step: Step, part: JsonView)
    requires
        part_at(v, seq![step]) == Some(part),
        has_image(part),
    ensures
        has_image(v),
{
    reveal_with_fuel(part_at, 2);
    let path = choose|path: Seq<Step>| #[trigger] shows_image(part, path);
    let longer = seq![step] + path;
    assert(longer.skip(1) =~= path);
    assert(shows_image(v, longer));
}

/// Whether the document holds an image part.
pub fn body_has_image(v: &Json) -> (r: bool)
    ensures
        r == has_image(v@),
    decreases *v,
{
    match v {
        Json::Object(members) => {
            let kind = text_of(v.get("type"));
            if is_text(kind, "image_url") || is_text(kind, "input_image") || is_text(kind, "image") {
                proof {
                    assert(shows_image(v@, Seq::empty()));
                }
                return true;
            }
            assert(!is_image_part(v@));
            proof {
                lemma_members(members@);
            }
            for i in 0..members.len()
                invariant
                    *v == Json::Object(*members),
                    forall|j: int|
                        #[trigger] last_named(members@, j) ==> members_of(v@).contains_key(
                            members@[j].0@,
                        ) && members_of(v@)[members@[j].0@] == members@[j].1@,
                    forall|j: int|
                        0 <= j < i && #[trigger] last_named(members@, j) ==> !has_image(
                            members@[j].1@,
                        ),
            {
                assert(decreases_to!(*v => v->Object_0));
                assert(decreases_to!(*members => members@));
                assert(decreases_to!(members@ => members@[i as int]));
                assert(decreases_to!(members@[i as int] => members@[i as int].1));
                let counts = match find_member(members, members[i].0.as_str()) {
                    Some(at) => at == i,
                    None => false,
                };
                proof {
                    if last_named(members@, i as int) {
                        assert(counts);
                    }
                }
                if counts && body_has_image(&members[i].1) {
                    proof {
                        reveal_with_fuel(part_at, 2);
                        let key = members@[i as int].0@;
                        assert(last_named(members@, i as int));
                        assert(part_at(v@, seq![Step::Member(key)]) == Some(
                            members@[i as int].1@,
                        ));
                        lemma_image_below(v@, Step::Member(key), members@[i as int].1@);
                    }
                    return true;
                }
            }
            proof {
                assert forall|path: Seq<Step>| !#[trigger] shows_image(v@, path) by {
                    if shows_image(v@, path) {
                        if path.len() > 0 {
                            let k = path[0]->Member_0;
                            let i = choose|i: int|
                                last_named(members@, i) && members@[i].0@ == k;
                            assert(last_named(members@, i));
                            assert(shows_image(members@[i].1@, path.skip(1)));
                        }
                    }
                }
            }
            false
        },
        Json::Array(items) => {
            proof {
                lemma_items(items@);
            }
            for i in 0..items.len()
                invariant
                    *v == Json::Array(*items),
                    items_of(v@).len() == items@.len(),
                    forall|j: int|
                        0 <= j < items@.len() ==> #[trigger] items_of(v@)[j] == items@[j]@,
                    forall|j: int| 0 <= j < i ==> !has_image((#[trigger] items@[j])@),
            {
                assert(decreases_to!(*v => v->Array_0));
                assert(decreases_to!(*items => items@));
                assert(decreases_to!(items@ => items@[i as int]));
                if body_has_image(&items[i]) {
                    proof {
                        reveal_with_fuel(part_at, 2);
                        assert(items_of(v@)[i as int] == items@[i as int]@);
                        assert(part_at(v@, seq![Step::Item(i as int)]) == Some(items@[i as int]@));
                        lemma_image_below(v@, Step::Item(i as int), items@[i as int]@);
                    }
                    return true;
                }
            }
            proof {
                assert forall|path: Seq<Step>| !#[trigger] shows_image(v@, path) by {
                    if shows_image(v@, path) {
                        if path.len() > 0 {
                            let i = path[0]->Item_0;
                            assert(items_of(v@)[i] == items@[i]@);
                            assert(shows_image(items@[i]@, path.skip(1)));
                        }
                    }
                }
            }
            false
        },
        _ => {
            proof {
                assert forall|path: Seq<Step>| !#[trigger] shows_image(v@, path) by {}
            }
            false
        },
    }
}

spec fn members_of(v: JsonView) -> Map<Seq<char>, JsonView> {
    v->Object_0
}

spec fn items_of(v: JsonView) -> Seq<JsonView> {
    v->Array_0
}

// ---------------------------------------------------------------------------
// The backend
// ---------------------------------------------------------------------------

/// The Copilot family.
#[derive(Debug)]
pub struct CopilotBackend {
    pub cooldown_ms: i64,
    /// Takes the place of [`DEFAULT_API_BASE`] where it is set.
    pub upstream: Option<String>,
}

/// The headers of a Copilot request.
pub open spec fn copilot_headers(
    f: Fields,
    token: Seq<char>,
    sticky: Option<Seq<char>>,
    body: JsonView,
) -> Fields {
    let f = with_field(f, "authorization"@, "Bearer "@ + token);
    let f = with_field(f, "X-GitHub-Api-Version"@, API_VERSION@);
    let f = with_field(f, "user-agent"@, USER_AGENT@);
    let f = with_field(f, "x-initiator"@, "user"@);
    let f = with_field(f, "Openai-Intent"@, "conversation-edits"@);
    let f = with_valid_field(f, "X-Interaction-Id"@, sticky);
    if has_image(body) {
        with_field(f, "Copilot-Vision-Request"@, "true"@)
    } else {
        f
    }
}

/// The body with the usage of its stream asked for, where it is a streamed one
/// that does not say whether it wants that.
pub open spec fn asking_usage(body: JsonView) -> Option<JsonView> {
    match body {
        JsonView::Object(m) => {
            if truth_in(body.get("stream"@)) != Some(true) {
                None
            } else if m.contains_key("stream_options"@) {
                match m["stream_options"@] {
                    JsonView::Object(o) => if o.contains_key("include_usage"@) {
                        None
                    } else {
                        Some(
                            JsonView::Object(
                                m.insert(
                                    "stream_options"@,
                                    JsonView::Object(
                                        o.insert("include_usage"@, JsonView::Bool(true)),
                                    ),
                                ),
                            ),
                        )
                    },
                    _ => None,
                }
            } else {
                Some(
                    JsonView::Object(
                        m.insert(
                            "stream_options"@,
                            JsonView::Object(
                                Map::empty().insert("include_usage"@, JsonView::Bool(true)),
                            ),
                        ),
                    ),
                )
            }
        },
        _ => None,
    }
}

impl CopilotBackend {
    /// Where the requests of the account go.
    pub fn base_for(&self, account: &Account) -> (r: String)
        ensures
            r@ == base_of(opt_view(account.enterprise_url), opt_view(self.upstream)),
    {
        match &self.upstream {
            Some(u) => api_base(account, Some(u.as_str())),
            None => api_base(account, None),
        }
    }
}

impl Backend for CopilotBackend {
    open spec fn kind(&self) -> BackendId {
        BackendId::Copilot
    }

    open spec fn cooldown(&self) -> i64 {
        self.cooldown_ms
    }

    open spec fn url(&self, path: Seq<char>, account: Account) -> Seq<char> {
        base_of(opt_view(account.enterprise_url), opt_view(self.upstream)) + path
    }

    open spec fn injected(
        &self,
        f: Fields,
        account: Account,
        token: Seq<char>,
        sticky: Option<Seq<char>>,
        body: JsonView,
    ) -> Fields {
        copilot_headers(f, token, sticky, body)
    }

    open spec fn prepared(&self, body: JsonView) -> JsonView {
        body
    }

    open spec fn with_usage(&self, path: Seq<char>, body: JsonView) -> Option<JsonView> {
        if is_chat_path(path) {
            asking_usage(body)
        } else {
            None
        }
    }

    open spec fn is_chat(&self, path: Seq<char>) -> bool {
        is_chat_path(path)
    }

    open spec fn outcome(&self, status: u16, body: Seq<char>, until: Option<i64>, now: int) -> Outcome {
        status_outcome(status, until, self.cooldown_ms as int, now)
    }

    fn id(&self) -> BackendId {
        BackendId::Copilot
    }

    fn default_cooldown_ms(&self) -> i64 {
        self.cooldown_ms
    }

    fn rewrite_url(&self, path: &str, account: &Account) -> String {
        join2(self.base_for(account).as_str(), path)
    }

    fn inject_headers(
        &self,
        account: &Account,
        token: &str,
        sticky: Option<&str>,
        body: &Json,
        headers: &mut HeaderMap,
    ) {
        proof {
            lemma_bearer(token@);
            reveal_strlit("authorization");
            reveal_strlit("X-GitHub-Api-Version");
            reveal_strlit("2026-06-01");
            reveal_strlit("user-agent");
            reveal_strlit("opencode/0.1.0 (underclass-pool-proxy)");
            reveal_strlit("x-initiator");
            reveal_strlit("user");
            reveal_strlit("Openai-Intent");
            reveal_strlit("conversation-edits");
            reveal_strlit("X-Interaction-Id");
            reveal_strlit("Copilot-Vision-Request");
            reveal_strlit("true");
        }
        let bearer = join2("Bearer ", token);
        let _taken = set_header(headers, "authorization", bearer.as_str(), Ghost(8));
        let _taken = set_header(headers, "X-GitHub-Api-Version", API_VERSION, Ghost(7));
        let _taken = set_header(headers, "user-agent", USER_AGENT, Ghost(6));
        let _taken = set_header(headers, "x-initiator", "user", Ghost(5));
        let _taken = set_header(headers, "Openai-Intent", "conversation-edits", Ghost(4));
        if let Some(key) = sticky {
            let _taken = set_header(headers, "X-Interaction-Id", key, Ghost(3));
        }
        if body_has_image(body) {
            let _taken = set_header(headers, "Copilot-Vision-Request", "true", Ghost(2));
        }
    }

    fn prepare_body(&self, body: &mut Json) {
    }

    fn auto_stream_usage(&self, path: &str, body: &mut Json) -> bool {
        if !chat_path(path) {
            return false;
        }
        match truth_of(body.get("stream")) {
            Some(true) => {},
            _ => return false,
        }
        let options = match body.get("stream_options") {
            Some(found) => match found {
                Json::Object(_) => {
                    if found.get("include_usage").is_some() {
                        return false;
                    }
                    let mut options = found.copy();
                    options.set("include_usage", Json::Bool(true));
                    options
                },
                _ => return false,
            },
            None => {
                let mut options = Json::Object(Vec::new());
                options.set("include_usage", Json::Bool(true));
                options
            },
        };
        body.set("stream_options", options);
        true
    }

    fn usage_is_chat(&self, path: &str) -> bool {
        chat_path(path)
    }

    fn classify(
        &self,
        status: u16,
        body: &str,
        headers: &HeaderMap,
        numbers: &RetryNumbers,
        now_ms: i64,
    ) -> Outcome {
        crate::health::classify(status, headers, numbers, self.cooldown_ms, now_ms)
    }
}

/// What the client says of the usage of its stream is kept; nothing but that is
/// ever changed.
pub proof fn law_stream_usage_keeps_client_choice(b: CopilotBackend, path: Seq<char>, body: JsonView)
    ensures
        get_in(body.get("stream_options"@), "include_usage"@) is Some ==> b.with_usage(path, body)
            is None,
        b.with_usage(path, body) matches Some(v) ==> {
            &&& get_in(v.get("stream_options"@), "include_usage"@) == Some(JsonView::Bool(true))
            &&& forall|key: Seq<char>| key != "stream_options"@ ==> #[trigger] v.get(key)
                == body.get(key)
            &&& forall|key: Seq<char>| key != "include_usage"@ ==> #[trigger] get_in(
                v.get("stream_options"@),
                key,
            ) == get_in(body.get("stream_options"@), key)
        },
{
}

/// A request says that it holds images exactly if its body does, provided the
/// client did not say so itself.
pub proof fn law_vision_header_iff_image(
    b: CopilotBackend,
    f: Fields,
    account: Account,
    token: Seq<char>,
    sticky: Option<Seq<char>>,
    body: JsonView,
)
    requires
        !f.contains_key(lower("Copilot-Vision-Request"@)),
    ensures
        b.injected(f, account, token, sticky, body).contains_key(lower("Copilot-Vision-Request"@))
            <==> has_image(body),
        has_image(body) ==> b.injected(f, account, token, sticky, body)[lower(
            "Copilot-Vision-Request"@,
        )] == seq![encode_utf8("true"@)],
{
    reveal_strlit("authorization");
    reveal_strlit("X-GitHub-Api-Version");
    reveal_strlit("user-agent");
    reveal_strlit("x-initiator");
    reveal_strlit("Openai-Intent");
    reveal_strlit("X-Interaction-Id");
    reveal_strlit("Copilot-Vision-Request");
    assert(lower("authorization"@).len() == 13);
    assert(lower("X-GitHub-Api-Version"@).len() == 20);
    assert(lower("user-agent"@).len() == 10);
    assert(lower("x-initiator"@).len() == 11);
    assert(lower("Openai-Intent"@).len() == 13);
    assert(lower("X-Interaction-Id"@).len() == 16);
    assert(lower("Copilot-Vision-Request"@).len() == 22);
}

/// Whatever credential the client sent, the request carries that of the account
/// and no other.
pub proof fn law_copilot_replaces_credential(
    b: CopilotBackend,
    f: Fields,
    account: Account,
    token: Seq<char>,
    sticky: Option<Seq<char>>,
    body: JsonView,
)
    ensures
        b.injected(f, account, token, sticky, body)[lower("authorization"@)] == seq![
            encode_utf8("Bearer "@ + token),
        ],
{
    reveal_strlit("authorization");
    reveal_strlit("X-GitHub-Api-Version");
    reveal_strlit("user-agent");
    reveal_strlit("x-initiator");
    reveal_strlit("Openai-Intent");
    reveal_strlit("X-Interaction-Id");
    reveal_strlit("Copilot-Vision-Request");
    assert(lower("authorization"@)[0] == 'a');
    assert(lower("Openai-Intent"@)[0] == 'o') by {
        assert("Openai-Intent"@[0] == 'O');
    }
    assert(lower("authorization"@).len() == 13);
    assert(lower("X-GitHub-Api-Version"@).len() == 20);
    assert(lower("user-agent"@).len() == 10);
    assert(lower("x-initiator"@).len() == 11);
    assert(lower("X-Interaction-Id"@).len() == 16);
    assert(lower("Copilot-Vision-Request"@).len() == 22);
}

/// The requests of an account with an enterprise go to the host of that, whatever
/// upstream is configured.
pub proof fn law_enterprise_goes_to_its_host(b: CopilotBackend, path: Seq<char>, account: Account)
    ensures
        account.enterprise_url matches Some(u) ==> b.url(path, account) == "https://copilot-api."@
            + domain_of(u@) + path,
{
}

} // verus!
