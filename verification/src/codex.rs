//! Codex (ChatGPT) subscriptions.
use crate::clock::{clamped, opt_secs_as_ms, plus, seconds_to_ms};
use crate::headers::{is_value_text, set_header, value_char, with_field, with_valid_field};
use crate::health::{outcome_of_status, parse_retry_after_headers, status_outcome, RetryNumbers};
use crate::json::{
    document, get_in, is_text, member, parse_json, ref_view, text_in, text_of, whole_in, Json,
    JsonView,
};
use crate::flows::new_account;
use crate::models::{
    is_uuid_text, model_views, Account, AccountStatus, BackendId, ModelInfo, ModelView, Outcome,
};
use crate::provider::{Backend, Fields};
use crate::text::{
    contains_chars, dec, dec_u64, ends_with, has_substring, has_suffix, join2, lower, lower_chars,
    opt_str_view, opt_view, parse_u64, parsed_u64,
};
use http::HeaderMap;
use vstd::prelude::*;
use vstd::utf8::encode_utf8;

verus! {

pub const CLIENT_ID: &'static str = "app_EMoamEEZ73f0CkXaXp7hrann";

pub const ISSUER: &'static str = "https://auth.openai.com";

pub const CODEX_ENDPOINT: &'static str = "https://chatgpt.com/backend-api/codex/responses";

pub const USER_AGENT: &'static str = "opencode/0.1.0 (underclass-pool-proxy)";

/// The endpoint of Codex requests: the configured upstream, else the one of the
/// service.
pub fn codex_endpoint(upstream: Option<&str>) -> (r: String)
    ensures
        r@ == endpoint_of(opt_str_view(upstream)),
{
    match upstream {
        Some(u) => u.to_owned(),
        None => CODEX_ENDPOINT.to_owned(),
    }
}

pub open spec fn endpoint_of(upstream: Option<Seq<char>>) -> Seq<char> {
    match upstream {
        Some(u) => u,
        None => CODEX_ENDPOINT@,
    }
}

/// The Codex family.
#[derive(Debug)]
pub struct CodexBackend {
    pub cooldown_ms: i64,
    /// Takes the place of [`CODEX_ENDPOINT`] where it is set.
    pub upstream: Option<String>,
}

// ---------------------------------------------------------------------------
// Sign-in
// ---------------------------------------------------------------------------

/// The start of a device sign-in.
#[derive(Debug)]
pub struct DeviceCodeInit {
    pub device_auth_id: String,
    pub user_code: String,
    pub interval: Option<String>,
}

/// The code that an approved device sign-in gives.
#[derive(Debug)]
pub struct DeviceCodeToken {
    pub authorization_code: String,
    pub code_verifier: String,
}

/// The tokens of an account, fresh from the issuer.
#[derive(Debug)]
pub struct TokenResponse {
    pub id_token: Option<String>,
    pub access_token: String,
    pub refresh_token: String,
    pub expires_in: Option<u64>,
}

impl Clone for TokenResponse {
    fn clone(&self) -> (r: Self)
        ensures
            r == *self,
    {
        TokenResponse {
            id_token: self.id_token.clone(),
            access_token: self.access_token.clone(),
            refresh_token: self.refresh_token.clone(),
            expires_in: self.expires_in,
        }
    }
}

/// Why a sign-in or a refresh failed.
#[derive(Debug)]
pub enum AuthError {
    /// The request could not be made: what went wrong, in words.
    Http(String),
    Status(u16),
    Failed(String),
}

impl AuthError {
    pub open spec fn words(self) -> Seq<char> {
        match self {
            AuthError::Http(e) => "request failed: "@ + e@,
            AuthError::Status(s) => "unexpected status "@ + dec(s as int),
            AuthError::Failed(e) => "authorization failed: "@ + e@,
        }
    }

    /// The error in words.
    pub fn message(&self) -> (r: String)
        ensures
            r@ == self.words(),
    {
        match self {
            AuthError::Http(e) => join2("request failed: ", e.as_str()),
            AuthError::Status(s) => join2("unexpected status ", dec_u64(*s as u64).as_str()),
            AuthError::Failed(e) => join2("authorization failed: ", e.as_str()),
        }
    }
}

/// An answer with this status was successful.
pub open spec fn is_success(status: u16) -> bool {
    200 <= status && status < 300
}

/// Checks the status of an answer that is due.
pub fn check_status(status: u16) -> (r: Result<(), AuthError>)
    ensures
        match r {
            Ok(()) => is_success(status),
            Err(e) => !is_success(status) && e == AuthError::Status(status),
        },
{
    if 200 <= status && status < 300 {
        Ok(())
    } else {
        Err(AuthError::Status(status))
    }
}

/// Checks the status of an answer to a poll: the sign-in may not be approved
/// yet.
pub fn check_poll_status(status: u16) -> (r: Result<(), AuthError>)
    ensures
        match r {
            Ok(()) => is_success(status),
            Err(AuthError::Failed(m)) => (status == 403 || status == 404) && m@ == "pending"@,
            Err(e) => !is_success(status) && status != 403 && status != 404 && e
                == AuthError::Status(status),
        },
{
    if status == 403 || status == 404 {
        return Err(AuthError::Failed("pending".to_owned()));
    }
    check_status(status)
}

/// What a poll that gave no code leads to.
#[derive(Debug)]
pub enum PollStep {
    Wait,
    Fail(String),
}

/// The step after a poll that failed: a sign-in that is not approved yet is
/// polled again, anything else ends it.
pub fn after_poll_error(error: &AuthError) -> (r: PollStep)
    ensures
        match r {
            PollStep::Wait => *error is Failed,
            PollStep::Fail(m) => !(*error is Failed) && m@ == "device authorization failed"@,
        },
{
    match error {
        AuthError::Failed(_) => PollStep::Wait,
        _ => PollStep::Fail("device authorization failed".to_owned()),
    }
}

/// The seconds between two polls: what the issuer asks for, else five; at least
/// one.
pub open spec fn poll_interval_secs(interval: Option<Seq<char>>) -> u64 {
    let asked = match interval {
        Some(s) => parsed_u64(s),
        None => None,
    };
    match asked {
        Some(0) => 1,
        Some(n) => n,
        None => 5,
    }
}

pub fn poll_interval(interval: Option<&str>) -> (r: u64)
    ensures
        r == poll_interval_secs(opt_str_view(interval)),
        r >= 1,
{
    let asked: Option<u64> = match interval {
        Some(s) => parse_u64(s),
        None => None,
    };
    match asked {
        Some(n) => if n == 0 {
            1
        } else {
            n
        },
        None => 5,
    }
}

/// The address at which the user approves a sign-in.
pub fn verify_url() -> (r: String)
    ensures
        r@ == ISSUER@ + "/codex/device"@,
{
    join2(ISSUER, "/codex/device")
}

/// What the claims of a token say of its owner.
#[derive(Debug)]
pub struct Claims {
    pub account_id: Option<String>,
    pub residency: Option<String>,
    pub email: Option<String>,
    pub display_name: Option<String>,
}

/// The first of two texts that is there.
pub open spec fn either(a: Option<Seq<char>>, b: Option<Seq<char>>) -> Option<Seq<char>> {
    if a is Some {
        a
    } else {
        b
    }
}

pub(crate) fn first_text_of(a: Option<String>, b: Option<String>) -> (r: Option<String>)
    ensures
        opt_view(r) == either(opt_view(a), opt_view(b)),
{
    match a {
        Some(x) => Some(x),
        None => b,
    }
}

pub open spec fn claimed_account(c: Option<Claims>) -> Option<Seq<char>> {
    match c {
        Some(c) => opt_view(c.account_id),
        None => None,
    }
}

pub open spec fn claimed_residency(c: Option<Claims>) -> Option<Seq<char>> {
    match c {
        Some(c) => opt_view(c.residency),
        None => None,
    }
}

pub open spec fn claimed_identity(c: Option<Claims>) -> Option<Seq<char>> {
    match c {
        Some(c) => either(opt_view(c.email), opt_view(c.display_name)),
        None => None,
    }
}

/// Who a token belongs to, by its claims: the email, else the display name.
pub fn identity_from_token(claims: &Option<Claims>) -> (r: Option<String>)
    ensures
        opt_view(r) == claimed_identity(*claims),
{
    match claims {
        Some(c) => first_text_of(c.email.clone(), c.display_name.clone()),
        None => None,
    }
}

/// The ChatGPT account that a token belongs to, by its claims.
pub fn account_from_token(claims: &Option<Claims>) -> (r: Option<String>)
    ensures
        opt_view(r) == claimed_account(*claims),
{
    match claims {
        Some(c) => c.account_id.clone(),
        None => None,
    }
}

/// Where a token is to be used, by its claims.
pub fn residency_from_token(claims: &Option<Claims>) -> (r: Option<String>)
    ensures
        opt_view(r) == claimed_residency(*claims),
{
    match claims {
        Some(c) => c.residency.clone(),
        None => None,
    }
}

/// The seconds that a token lasts: one hour unless the issuer says otherwise. A
/// number of 64 bits with the sign bit set stands for a token that has ended.
pub open spec fn lifetime_secs(expires_in: Option<u64>) -> int {
    match expires_in {
        Some(s) => if s <= i64::MAX {
            s as int
        } else {
            s - 0x1_0000_0000_0000_0000
        },
        None => 3600,
    }
}

/// The time at which the token ends can be told: neither the span in milliseconds
/// nor its end overflows.
pub open spec fn lifetime_fits(expires_in: Option<u64>, now: int) -> bool {
    &&& i64::MIN <= lifetime_secs(expires_in) * 1000 <= i64::MAX
    &&& i64::MIN <= now + lifetime_secs(expires_in) * 1000 <= i64::MAX
}

fn lifetime(expires_in: Option<u64>) -> (r: i128)
    ensures
        r == lifetime_secs(expires_in),
        -0x8000_0000_0000_0000 <= r <= 0x7fff_ffff_ffff_ffff,
{
    match expires_in {
        Some(s) => if s <= i64::MAX as u64 {
            s as i128
        } else {
            s as i128 - 0x1_0000_0000_0000_0000
        },
        None => 3600,
    }
}

/// Whether the time at which the token ends can be told.
pub fn check_lifetime(expires_in: Option<u64>, now_ms: i64) -> (r: bool)
    ensures
        r == lifetime_fits(expires_in, now_ms as int),
{
    let span: i128 = lifetime(expires_in) * 1000;
    let end: i128 = now_ms as i128 + span;
    let least: i128 = i64::MIN as i128;
    let most: i128 = i64::MAX as i128;
    least <= span && span <= most && least <= end && end <= most
}

/// The time at which a token ends.
pub fn expiry(expires_in: Option<u64>, now_ms: i64) -> (r: i64)
    requires
        lifetime_fits(expires_in, now_ms as int),
    ensures
        r == now_ms + lifetime_secs(expires_in) * 1000,
{
    (now_ms as i128 + lifetime(expires_in) * 1000) as i64
}

/// The account that a sign-in renews: its tokens are replaced and it is healthy
/// again; what the claims do not say stays.
pub fn renewed_account(
    existing: &Account,
    tokens: &TokenResponse,
    access: &Option<Claims>,
    identity: &Option<Claims>,
    ts: i64,
) -> (r: Account)
    requires
        lifetime_fits(tokens.expires_in, ts as int),
    ensures
        r == (Account {
            refresh_token: r.refresh_token,
            access_token: r.access_token,
            expires_at: (ts + lifetime_secs(tokens.expires_in) * 1000) as i64,
            account_id: r.account_id,
            residency: r.residency,
            status: AccountStatus::Healthy,
            reset_at: 0,
            token_refreshed_at: ts,
            updated_at: ts,
            ..*existing
        }),
        opt_view(r.refresh_token) == Some(tokens.refresh_token@),
        opt_view(r.access_token) == Some(tokens.access_token@),
        opt_view(r.account_id) == either(claimed_account(*access), opt_view(existing.account_id)),
        opt_view(r.residency) == either(
            either(claimed_residency(*access), claimed_residency(*identity)),
            opt_view(existing.residency),
        ),
{
    let mut account = existing.clone();
    account.refresh_token = Some(tokens.refresh_token.clone());
    account.access_token = Some(tokens.access_token.clone());
    account.expires_at = expiry(tokens.expires_in, ts);
    account.account_id = first_text_of(account_from_token(access), existing.account_id.clone());
    account.residency = first_text_of(
        first_text_of(residency_from_token(access), residency_from_token(identity)),
        existing.residency.clone(),
    );
    account.status = AccountStatus::Healthy;
    account.reset_at = 0;
    account.token_refreshed_at = ts;
    account.updated_at = ts;
    account
}

/// The label of a new account: who the access token belongs to, else who the id
/// token belongs to, else `chatgpt`.
pub open spec fn label_of(access: Option<Claims>, identity: Option<Claims>) -> Seq<char> {
    match either(claimed_identity(access), claimed_identity(identity)) {
        Some(s) => s,
        None => "chatgpt"@,
    }
}

pub fn onboarding_label(access: &Option<Claims>, identity: &Option<Claims>) -> (r: String)
    ensures
        r@ == label_of(*access, *identity),
{
    match first_text_of(identity_from_token(access), identity_from_token(identity)) {
        Some(s) => s,
        None => "chatgpt".to_owned(),
    }
}

/// The account that a sign-in creates, made from a fresh one.
pub fn onboarded_account(
    fresh: Account,
    tokens: &TokenResponse,
    access: &Option<Claims>,
    identity: &Option<Claims>,
    ts: i64,
) -> (r: Account)
    requires
        lifetime_fits(tokens.expires_in, ts as int),
    ensures
        r == (Account {
            refresh_token: r.refresh_token,
            access_token: r.access_token,
            expires_at: (ts + lifetime_secs(tokens.expires_in) * 1000) as i64,
            account_id: r.account_id,
            residency: r.residency,
            token_refreshed_at: ts,
            ..fresh
        }),
        opt_view(r.refresh_token) == Some(tokens.refresh_token@),
        opt_view(r.access_token) == Some(tokens.access_token@),
        opt_view(r.account_id) == claimed_account(*access),
        opt_view(r.residency) == either(claimed_residency(*access), claimed_residency(*identity)),
{
    let mut account = fresh;
    account.refresh_token = Some(tokens.refresh_token.clone());
    account.access_token = Some(tokens.access_token.clone());
    account.expires_at = expiry(tokens.expires_in, ts);
    account.account_id = account_from_token(access);
    account.residency = first_text_of(
        residency_from_token(access),
        residency_from_token(identity),
    );
    account.token_refreshed_at = ts;
    account
}

/// The end of a sign-in: the account that is stored, or why there is none. A
/// sign-in that renews an account needs that account to be there still.
pub fn finish_flow(
    replaces: bool,
    existing: Option<&Account>,
    tokens: &TokenResponse,
    access: &Option<Claims>,
    identity: &Option<Claims>,
    ts: i64,
) -> (r: Result<Account, String>)
    requires
        lifetime_fits(tokens.expires_in, ts as int),
    ensures
        match r {
            Ok(a) => {
                &&& !replaces || existing is Some
                &&& a.backend == (if replaces {
                    existing->0.backend
                } else {
                    BackendId::Codex
                })
                &&& replaces ==> a.id == existing->0.id && a.label == existing->0.label
                    && a.enterprise_url == existing->0.enterprise_url && a.created_at
                    == existing->0.created_at && a.updated_at == ts
                &&& !replaces ==> a.label@ == label_of(*access, *identity) && is_uuid_text(a.id@)
                    && a.enterprise_url is None && a.created_at == a.updated_at
                &&& a.is_healthy() && a.reset_at == 0
                &&& a.token_refreshed_at == ts
                &&& a.expires_at == ts + lifetime_secs(tokens.expires_in) * 1000
                &&& opt_view(a.refresh_token) == Some(tokens.refresh_token@)
                &&& opt_view(a.access_token) == Some(tokens.access_token@)
                &&& opt_view(a.account_id) == either(
                    claimed_account(*access),
                    if replaces {
                        opt_view(existing->0.account_id)
                    } else {
                        None
                    },
                )
                &&& opt_view(a.residency) == either(
                    either(claimed_residency(*access), claimed_residency(*identity)),
                    if replaces {
                        opt_view(existing->0.residency)
                    } else {
                        None
                    },
                )
            },
            Err(m) => replaces && existing is None && m@
                == "account being replaced no longer exists"@,
        },
{
    if replaces {
        match existing {
            Some(a) => Ok(renewed_account(a, tokens, access, identity, ts)),
            None => Err("account being replaced no longer exists".to_owned()),
        }
    } else {
        let fresh = new_account(BackendId::Codex, onboarding_label(access, identity));
        Ok(onboarded_account(fresh, tokens, access, identity, ts))
    }
}

fn listed_model(id: &str, name: &str) -> (r: ModelInfo)
    ensures
        r@ == listed_as(id@, name@),
{
    ModelInfo {
        id: id.to_owned(),
        name: name.to_owned(),
        context: 400_000,
        input: 272_000,
        output: 128_000,
    }
}

/// A model with the limits that all Codex models have.
pub open spec fn listed_as(id: Seq<char>, name: Seq<char>) -> ModelView {
    ModelView { id, name, context: 400_000, input: 272_000, output: 128_000 }
}

/// The models that Codex accounts serve until a catalog is stored.
pub fn default_catalog() -> (r: Vec<ModelInfo>)
    ensures
        model_views(r@) == seq![
            listed_as("gpt-5.4"@, "GPT-5.4"@),
            listed_as("gpt-5.4-mini"@, "GPT-5.4 Mini"@),
            listed_as("gpt-5.3-codex-spark"@, "GPT-5.3 Codex Spark"@),
            listed_as("gpt-5.5"@, "GPT-5.5"@),
            listed_as("gpt-5.6-sol"@, "GPT-5.6 Sol"@),
            listed_as("gpt-5.6-terra"@, "GPT-5.6 Terra"@),
            listed_as("gpt-5.6-luna"@, "GPT-5.6 Luna"@),
            listed_as("gpt-6-astra"@, "GPT-6 Astra"@),
        ],
{
    let mut r: Vec<ModelInfo> = Vec::new();
    r.push(listed_model("gpt-5.4", "GPT-5.4"));
    r.push(listed_model("gpt-5.4-mini", "GPT-5.4 Mini"));
    r.push(listed_model("gpt-5.3-codex-spark", "GPT-5.3 Codex Spark"));
    r.push(listed_model("gpt-5.5", "GPT-5.5"));
    r.push(listed_model("gpt-5.6-sol", "GPT-5.6 Sol"));
    r.push(listed_model("gpt-5.6-terra", "GPT-5.6 Terra"));
    r.push(listed_model("gpt-5.6-luna", "GPT-5.6 Luna"));
    r.push(listed_model("gpt-6-astra", "GPT-6 Astra"));
    r
}

// ---------------------------------------------------------------------------
// Answers
// ---------------------------------------------------------------------------

/// The words by which an error says that a quota is used up, in lower case.
pub open spec fn quota_words() -> Seq<Seq<char>> {
    seq![
        "usage_limit_reached"@,
        "insufficient_quota"@,
        "usage_not_included"@,
        "freeusagelimiterror"@,
        "rate_limit"@,
        "too_many_requests"@,
    ]
}

/// The text is a quota word, whatever its case.
pub open spec fn names_quota(s: Option<Seq<char>>) -> bool {
    s matches Some(s) && quota_words().contains(lower(s))
}

/// A quota word occurs in the text, whatever its case.
pub open spec fn mentions_quota(s: Seq<char>) -> bool {
    exists|i: int|
        0 <= i < quota_words().len() && has_substring(lower(s), #[trigger] quota_words()[i])
}

fn word_list() -> (r: Vec<Vec<char>>)
    ensures
        r@.len() == quota_words().len(),
        forall|i: int| 0 <= i < r@.len() ==> (#[trigger] r@[i])@ == quota_words()[i],
{
    let mut r: Vec<Vec<char>> = Vec::new();
    r.push(crate::text::chars_of("usage_limit_reached"));
    r.push(crate::text::chars_of("insufficient_quota"));
    r.push(crate::text::chars_of("usage_not_included"));
    r.push(crate::text::chars_of("freeusagelimiterror"));
    r.push(crate::text::chars_of("rate_limit"));
    r.push(crate::text::chars_of("too_many_requests"));
    r
}

fn is_quota_name(s: Option<&str>) -> (r: bool)
    ensures
        r == names_quota(opt_str_view(s)),
{
    match s {
        Some(text) => {
            let low = lower_chars(text);
            let words = word_list();
            for i in 0..words.len()
                invariant
                    s == Some(text),
                    low@ == lower(text@),
                    words@.len() == quota_words().len(),
                    forall|j: int| 0 <= j < words@.len() ==> (#[trigger] words@[j])@ == quota_words()[j],
                    forall|j: int| 0 <= j < i ==> #[trigger] quota_words()[j] != lower(text@),
            {
                assert(words@[i as int]@ == quota_words()[i as int]);
                if crate::text::same_chars(&low, &words[i]) {
                    return true;
                }
            }
            false
        },
        None => false,
    }
}

fn has_quota_word(s: &str) -> (r: bool)
    ensures
        r == mentions_quota(s@),
{
    let low = lower_chars(s);
    let words = word_list();
    for i in 0..words.len()
        invariant
            low@ == lower(s@),
            words@.len() == quota_words().len(),
            forall|j: int| 0 <= j < words@.len() ==> (#[trigger] words@[j])@ == quota_words()[j],
            forall|j: int|
                0 <= j < i ==> !has_substring(lower(s@), #[trigger] quota_words()[j]),
    {
        assert(words@[i as int]@ == quota_words()[i as int]);
        if contains_chars(&low, &words[i]) {
            return true;
        }
    }
    false
}

/// The later one of two deadlines.
pub open spec fn later(a: Option<i64>, b: Option<i64>) -> Option<i64> {
    match (a, b) {
        (Some(x), Some(y)) => Some(if x >= y {
            x
        } else {
            y
        }),
        (Some(x), None) => Some(x),
        (None, y) => y,
    }
}

/// The deadline, if it lies ahead.
pub open spec fn ahead_of(at: Option<i64>, now: int) -> Option<i64> {
    match at {
        Some(t) if t > now => Some(t),
        _ => None,
    }
}

/// What an answer with the given error means: overload passes; a used-up quota
/// holds until the later deadline that lies ahead, of the error itself and of
/// the retry headers, else for the configured time; anything else goes by the
/// status.
pub open spec fn error_outcome(
    status: u16,
    error: Option<JsonView>,
    body: Seq<char>,
    until: Option<i64>,
    cooldown: int,
    now: int,
) -> Outcome {
    let kind = text_in(get_in(error, "type"@));
    let code = text_in(get_in(error, "code"@));
    if kind == Some("server_is_overloaded"@) || code == Some("server_is_overloaded"@) {
        Outcome::Transient
    } else if status == 429 || names_quota(kind) || names_quota(code) || (error is None
        && mentions_quota(body)) {
        let named = if kind == Some("usage_limit_reached"@) || code == Some(
            "usage_limit_reached"@,
        ) {
            ahead_of(opt_secs_as_ms(whole_in(get_in(error, "resets_at"@))), now)
        } else {
            None
        };
        Outcome::QuotaExhausted {
            until_ms: match later(named, ahead_of(until, now)) {
                Some(t) => t,
                None => clamped(now + cooldown),
            },
        }
    } else {
        status_outcome(status, until, cooldown, now)
    }
}

fn keep_ahead(at: Option<i64>, now: i64) -> (r: Option<i64>)
    ensures
        r == ahead_of(at, now as int),
{
    match at {
        Some(t) => if t > now {
            Some(t)
        } else {
            None
        },
        None => None,
    }
}

/// What an answer means, once its error and its retry deadline were read.
pub fn classify_error(
    status: u16,
    error: Option<&Json>,
    body: &str,
    until: Option<i64>,
    cooldown_ms: i64,
    now_ms: i64,
) -> (r: Outcome)
    ensures
        r == error_outcome(
            status,
            ref_view(error),
            body@,
            until,
            cooldown_ms as int,
            now_ms as int,
        ),
{
    let kind = text_of(member(error, "type"));
    let code = text_of(member(error, "code"));
    if is_text(kind, "server_is_overloaded") || is_text(code, "server_is_overloaded") {
        return Outcome::Transient;
    }
    let quota = status == 429 || is_quota_name(kind) || is_quota_name(code) || (error.is_none()
        && has_quota_word(body));
    if quota {
        let named = if is_text(kind, "usage_limit_reached") || is_text(
            code,
            "usage_limit_reached",
        ) {
            let at = match member(error, "resets_at") {
                Some(j) => match j.as_i64() {
                    Some(secs) => seconds_to_ms(secs),
                    None => None,
                },
                None => None,
            };
            keep_ahead(at, now_ms)
        } else {
            None
        };
        let header = keep_ahead(until, now_ms);
        let until_ms: i64 = match (named, header) {
            (Some(x), Some(y)) => if x >= y {
                x
            } else {
                y
            },
            (Some(x), None) => x,
            (None, Some(y)) => y,
            (None, None) => plus(now_ms, cooldown_ms),
        };
        return Outcome::QuotaExhausted { until_ms };
    }
    outcome_of_status(status, until, cooldown_ms, now_ms)
}

// ---------------------------------------------------------------------------
// The backend
// ---------------------------------------------------------------------------

/// The body with `store` off.
pub open spec fn unstored(body: JsonView) -> JsonView {
    match body {
        JsonView::Object(m) => JsonView::Object(m.insert("store"@, JsonView::Bool(false))),
        v => v,
    }
}

/// The headers of a Codex request.
pub open spec fn codex_headers(f: Fields, account: Account, token: Seq<char>) -> Fields {
    let f = with_field(f, "authorization"@, "Bearer "@ + token);
    let f = with_valid_field(f, "ChatGPT-Account-Id"@, opt_view(account.account_id));
    let f = with_valid_field(f, "x-openai-internal-codex-residency"@, opt_view(account.residency));
    let f = with_field(f, "originator"@, "opencode"@);
    with_field(f, "user-agent"@, USER_AGENT@)
}

/// `Bearer` in front of text that a header can hold gives such text.
pub(crate) proof fn lemma_bearer(token: Seq<char>)
    requires
        is_value_text(token),
    ensures
        is_value_text("Bearer "@ + token),
{
    reveal_strlit("Bearer ");
    let s = "Bearer "@ + token;
    assert forall|i: int| 0 <= i < s.len() implies value_char(#[trigger] s[i]) by {
        if i >= 7 {
            assert(s[i] == token[i - 7]);
        }
    }
}

impl Backend for CodexBackend {
    open spec fn kind(&self) -> BackendId {
        BackendId::Codex
    }

    open spec fn cooldown(&self) -> i64 {
        self.cooldown_ms
    }

    open spec fn url(&self, path: Seq<char>, account: Account) -> Seq<char> {
        if has_suffix(path, "/responses"@) || has_suffix(path, "/chat/completions"@) {
            endpoint_of(opt_view(self.upstream))
        } else {
            "https://api.openai.com"@ + path
        }
    }

    open spec fn injected(
        &self,
        f: Fields,
        account: Account,
        token: Seq<char>,
        sticky: Option<Seq<char>>,
        body: JsonView,
    ) -> Fields {
        codex_headers(f, account, token)
    }

    open spec fn prepared(&self, body: JsonView) -> JsonView {
        unstored(body)
    }

    open spec fn with_usage(&self, path: Seq<char>, body: JsonView) -> Option<JsonView> {
        None
    }

    open spec fn is_chat(&self, path: Seq<char>) -> bool {
        false
    }

    open spec fn outcome(&self, status: u16, body: Seq<char>, until: Option<i64>, now: int) -> Outcome {
        error_outcome(
            status,
            get_in(document(encode_utf8(body)), "error"@),
            body,
            until,
            self.cooldown_ms as int,
            now,
        )
    }

    fn id(&self) -> BackendId {
        BackendId::Codex
    }

    fn default_cooldown_ms(&self) -> i64 {
        self.cooldown_ms
    }

    fn rewrite_url(&self, path: &str, account: &Account) -> String {
        if ends_with(path, "/responses") || ends_with(path, "/chat/completions") {
            match &self.upstream {
                Some(u) => codex_endpoint(Some(u.as_str())),
                None => codex_endpoint(None),
            }
        } else {
            join2("https://api.openai.com", path)
        }
    }

    fn inject_headers(
        &self,
        account: &Account,
        token: &str,
        sticky: Option<&str>,
        body: &Json,
        headers: &mut HeaderMap,
    ) {
        proof {
            lemma_bearer(token@);
            reveal_strlit("authorization");
            reveal_strlit("ChatGPT-Account-Id");
            reveal_strlit("x-openai-internal-codex-residency");
            reveal_strlit("originator");
            reveal_strlit("opencode");
            reveal_strlit("user-agent");
            reveal_strlit("opencode/0.1.0 (underclass-pool-proxy)");
        }
        let bearer = join2("Bearer ", token);
        let _taken = set_header(headers, "authorization", bearer.as_str(), Ghost(8));
        if let Some(account_id) = &account.account_id {
            let _taken = set_header(headers, "ChatGPT-Account-Id", account_id.as_str(), Ghost(7));
        }
        if let Some(residency) = &account.residency {
            let _taken = set_header(
                headers,
                "x-openai-internal-codex-residency",
                residency.as_str(),
                Ghost(6),
            );
        }
        let _taken = set_header(headers, "originator", "opencode", Ghost(5));
        let _taken = set_header(headers, "user-agent", USER_AGENT, Ghost(4));
    }

    fn prepare_body(&self, body: &mut Json) {
        body.set("store", Json::Bool(false));
    }

    fn auto_stream_usage(&self, path: &str, body: &mut Json) -> bool {
        false
    }

    fn usage_is_chat(&self, path: &str) -> bool {
        false
    }

    fn classify(
        &self,
        status: u16,
        body: &str,
        headers: &HeaderMap,
        numbers: &RetryNumbers,
        now_ms: i64,
    ) -> Outcome {
        let until = parse_retry_after_headers(headers, numbers, now_ms);
        match parse_json(body.as_bytes()) {
            Ok(doc) => classify_error(
                status,
                doc.get("error"),
                body,
                until,
                self.cooldown_ms,
                now_ms,
            ),
            Err(_) => classify_error(status, None, body, until, self.cooldown_ms, now_ms),
        }
    }
}

/// Every outbound Codex body that is an object says not to store the request.
pub proof fn law_codex_never_stores(b: CodexBackend, body: JsonView)
    ensures
        body is Object ==> b.prepared(body).get("store"@) == Some(JsonView::Bool(false)),
        forall|key: Seq<char>| key != "store"@ ==> #[trigger] b.prepared(body).get(key)
            == body.get(key),
{
}

/// Whatever credential the client sent, the request carries that of the account
/// and no other.
pub proof fn law_codex_replaces_credential(
    b: CodexBackend,
    f: Fields,
    account: Account,
    token: Seq<char>,
    sticky: Option<Seq<char>>,
    body: JsonView,
)
    ensures
        b.injected(f, account, token, sticky, body)[lower("authorization"@)] == seq![
            encode_utf8("Bearer "@ + token),
        ],
{
    reveal_strlit("authorization");
    reveal_strlit("ChatGPT-Account-Id");
    reveal_strlit("x-openai-internal-codex-residency");
    reveal_strlit("originator");
    reveal_strlit("user-agent");
    assert(lower("authorization"@).len() == 13);
    assert(lower("ChatGPT-Account-Id"@).len() == 18);
    assert(lower("x-openai-internal-codex-residency"@).len() == 33);
    assert(lower("originator"@).len() == 10);
    assert(lower("user-agent"@).len() == 10);
}

/// Overload never cools an account, whatever the status.
pub proof fn law_overload_is_transient(
    status: u16,
    error: JsonView,
    body: Seq<char>,
    until: Option<i64>,
    cooldown: int,
    now: int,
)
    requires
        text_in(error.get("type"@)) == Some("server_is_overloaded"@) || text_in(
            error.get("code"@),
        ) == Some("server_is_overloaded"@),
    ensures
        error_outcome(status, Some(error), body, until, cooldown, now) == Outcome::Transient,
{
}

proof fn lemma_usage_limit_is_quota()
    ensures
        names_quota(Some("usage_limit_reached"@)),
{
    reveal_strlit("usage_limit_reached");
    let s = "usage_limit_reached"@;
    assert(lower(s) =~= s);
    assert(quota_words()[0] == s);
}

/// A usage limit cools the account past both deadlines that lie ahead, that of
/// the error and that of the retry headers, and no longer; where neither does,
/// for the configured time.
pub proof fn law_usage_limit_lasts_to_the_later_deadline(
    status: u16,
    error: JsonView,
    body: Seq<char>,
    until: Option<i64>,
    cooldown: int,
    now: int,
)
    requires
        text_in(error.get("type"@)) == Some("usage_limit_reached"@) || text_in(error.get("code"@))
            == Some("usage_limit_reached"@),
        text_in(error.get("type"@)) != Some("server_is_overloaded"@),
        text_in(error.get("code"@)) != Some("server_is_overloaded"@),
    ensures
        ({
            let named = ahead_of(opt_secs_as_ms(whole_in(error.get("resets_at"@))), now);
            let told = ahead_of(until, now);
            error_outcome(status, Some(error), body, until, cooldown, now)
                matches Outcome::QuotaExhausted { until_ms } && (named matches Some(t) ==> until_ms
                >= t) && (told matches Some(t) ==> until_ms >= t) && (if named is None && told is None {
                until_ms == clamped(now + cooldown)
            } else {
                named == Some(until_ms) || told == Some(until_ms)
            })
        }),
{
    lemma_usage_limit_is_quota();
}

/// The status of an account goes to a credential error only where the credential
/// was rejected.
pub proof fn law_credential_error_needs_a_rejection(
    status: u16,
    error: Option<JsonView>,
    body: Seq<char>,
    until: Option<i64>,
    cooldown: int,
    now: int,
)
    requires
        error_outcome(status, error, body, until, cooldown, now) == Outcome::AuthFailed,
    ensures
        status == 401 || status == 403,
{
}

} // verus!
