//! Access tokens: which one to use, when to renew it, when to rotate it.
use crate::clock::{clamped, minus};
use crate::codex::{
    account_from_token, claimed_account, claimed_residency, either, expiry, first_text_of,
    lifetime_fits, lifetime_secs, residency_from_token, Claims, TokenResponse,
};
use crate::models::{Account, BackendId};
use crate::text::{join2, opt_view};
use vstd::prelude::*;

verus! {

/// A token that ends within this time is renewed: five minutes.
pub const PROACTIVE_REFRESH_MARGIN_MS: i64 = 300_000;

/// How often a Codex refresh token is rotated, whether or not its access token
/// ends: one day.
pub const ROTATION_INTERVAL_MS: i64 = 86_400_000;

/// The refresh token of the account is due for rotation.
pub open spec fn is_due(account: Account, now: int) -> bool {
    &&& account.backend == BackendId::Codex
    &&& account.refresh_token is Some
    &&& clamped(now - account.token_refreshed_at) >= ROTATION_INTERVAL_MS
}

/// Whether the refresh token of the account is due for rotation. Copilot tokens
/// never are, nor is an account without one.
pub fn rotation_due(account: &Account, now_ms: i64) -> (r: bool)
    ensures
        r == is_due(*account, now_ms as int),
{
    account.backend == BackendId::Codex && account.refresh_token.is_some() && minus(
        now_ms,
        account.token_refreshed_at,
    ) >= ROTATION_INTERVAL_MS
}

/// A token that is due stays due as time goes on, and a clock behind the last
/// rotation makes none due.
pub proof fn law_rotation_follows_the_clock(account: Account, now: i64, later: i64)
    requires
        now <= later,
    ensures
        is_due(account, now as int) ==> is_due(account, later as int),
        now <= account.token_refreshed_at ==> !is_due(account, now as int),
{
}

/// The accounts that are due, in order.
pub open spec fn due(s: Seq<Account>, now: int) -> Seq<Account>
    decreases s.len(),
{
    if s.len() == 0 {
        s
    } else if is_due(s.last(), now) {
        due(s.drop_last(), now).push(s.last())
    } else {
        due(s.drop_last(), now)
    }
}

/// The accounts whose refresh token is due for rotation, in order.
pub fn due_accounts(accounts: &Vec<Account>, now_ms: i64) -> (r: Vec<Account>)
    ensures
        r@ == due(accounts@, now_ms as int),
{
    let mut out: Vec<Account> = Vec::new();
    for i in 0..accounts.len()
        invariant
            out@ == due(accounts@.take(i as int), now_ms as int),
    {
        assert(accounts@.take(i + 1).drop_last() =~= accounts@.take(i as int));
        if rotation_due(&accounts[i], now_ms) {
            out.push(accounts[i].clone());
        }
    }
    assert(accounts@.take(accounts@.len() as int) =~= accounts@);
    out
}

/// Why there is no token.
#[derive(Debug)]
pub enum TokenError {
    MissingToken,
    RefreshFailed(String),
}

impl TokenError {
    /// The error in words.
    pub fn message(&self) -> (r: String)
        ensures
            r@ == (match *self {
                TokenError::MissingToken => "account has no stored credential"@,
                TokenError::RefreshFailed(e) => "token refresh failed: "@ + e@,
            }),
    {
        match self {
            TokenError::MissingToken => "account has no stored credential".to_owned(),
            TokenError::RefreshFailed(e) => join2("token refresh failed: ", e.as_str()),
        }
    }
}

/// Where the token of an account comes from.
#[derive(Debug)]
pub enum TokenPlan {
    /// This token is used.
    Use(String),
    /// The token is renewed first.
    Renew,
    /// There is none.
    Missing,
}

/// The access token lasts beyond the margin.
pub open spec fn lasts(account: Account, now: int) -> bool {
    account.access_token is Some && clamped(account.expires_at - PROACTIVE_REFRESH_MARGIN_MS) > now
}

/// Where the token of an account comes from: a Copilot token is used as it is; a
/// Codex token while it lasts, and is renewed otherwise.
pub fn access_plan(account: &Account, now_ms: i64) -> (r: TokenPlan)
    ensures
        match account.backend {
            BackendId::Copilot => match r {
                TokenPlan::Use(t) => opt_view(account.refresh_token) == Some(t@),
                TokenPlan::Missing => account.refresh_token is None,
                TokenPlan::Renew => false,
            },
            BackendId::Codex => match r {
                TokenPlan::Use(t) => lasts(*account, now_ms as int) && opt_view(
                    account.access_token,
                ) == Some(t@),
                TokenPlan::Renew => !lasts(*account, now_ms as int),
                TokenPlan::Missing => false,
            },
        },
{
    match account.backend {
        BackendId::Copilot => match &account.refresh_token {
            Some(t) => TokenPlan::Use(t.clone()),
            None => TokenPlan::Missing,
        },
        BackendId::Codex => {
            if let Some(t) = &account.access_token {
                if minus(account.expires_at, PROACTIVE_REFRESH_MARGIN_MS) > now_ms {
                    return TokenPlan::Use(t.clone());
                }
            }
            TokenPlan::Renew
        },
    }
}

/// How the token of an account is renewed.
#[derive(Debug)]
pub enum RenewPlan {
    /// The token does not end: it is used as it is.
    Use(String),
    /// The issuer is asked with this refresh token.
    Ask(String),
}

/// How the token of a stored account is renewed. Whether a cached token still
/// lasts plays no part.
pub fn renew_plan(stored: Option<&Account>) -> (r: Result<RenewPlan, TokenError>)
    ensures
        match r {
            Ok(RenewPlan::Use(t)) => stored is Some && stored->0.backend == BackendId::Copilot
                && opt_view(stored->0.refresh_token) == Some(t@),
            Ok(RenewPlan::Ask(t)) => stored is Some && stored->0.backend == BackendId::Codex
                && opt_view(stored->0.refresh_token) == Some(t@),
            Err(e) => e == TokenError::MissingToken && (stored is None
                || stored->0.refresh_token is None),
        },
{
    let account = match stored {
        Some(a) => a,
        None => return Err(TokenError::MissingToken),
    };
    let token = match &account.refresh_token {
        Some(t) => t.clone(),
        None => return Err(TokenError::MissingToken),
    };
    match account.backend {
        BackendId::Copilot => Ok(RenewPlan::Use(token)),
        BackendId::Codex => Ok(RenewPlan::Ask(token)),
    }
}

/// What is stored of renewed tokens. A refresh token, account or residency that
/// is not told stays as it was stored.
#[derive(Debug)]
pub struct TokenUpdate {
    pub refresh_token: Option<String>,
    pub access_token: Option<String>,
    pub expires_at: i64,
    pub account_id: Option<String>,
    pub residency: Option<String>,
}

/// What is stored of renewed tokens: the new tokens and their end, the account
/// that the claims name, else the one known so far, and the residency that the
/// claims name.
pub fn token_update(
    account: &Account,
    tokens: &TokenResponse,
    claims: &Option<Claims>,
    now_ms: i64,
) -> (r: TokenUpdate)
    requires
        lifetime_fits(tokens.expires_in, now_ms as int),
    ensures
        opt_view(r.refresh_token) == Some(tokens.refresh_token@),
        opt_view(r.access_token) == Some(tokens.access_token@),
        r.expires_at == now_ms + lifetime_secs(tokens.expires_in) * 1000,
        opt_view(r.account_id) == either(claimed_account(*claims), opt_view(account.account_id)),
        opt_view(r.residency) == claimed_residency(*claims),
{
    TokenUpdate {
        refresh_token: Some(tokens.refresh_token.clone()),
        access_token: Some(tokens.access_token.clone()),
        expires_at: expiry(tokens.expires_in, now_ms),
        account_id: first_text_of(account_from_token(claims), account.account_id.clone()),
        residency: residency_from_token(claims),
    }
}

} // verus!
