//! What the admin interface checks and decides.
use crate::clock::{clamped, minus};
use crate::models::{Account, AccountStatus, BackendId, ModelInfo};
use crate::monitor::{session_count, sessions};
use crate::pool::{ids_of, model_ids, PoolCore, PoolView};
use crate::proxy::law_gate_admits_only_the_key;
use crate::store::UsageQuery;
use crate::text::{opt_str_view, same, split, split_of, views};
use vstd::prelude::*;

verus! {

/// What a sign-in is asked for with.
#[derive(Debug)]
pub struct StartFlowBody {
    pub backend: String,
    pub enterprise_url: Option<String>,
}

/// The models that a catalog is set to.
#[derive(Debug)]
pub struct CatalogBody {
    pub models: Vec<ModelInfo>,
}

/// A request with this header may use the admin interface: it is exactly
/// `Bearer` and the token.
pub open spec fn admits(token: Seq<char>, header: Option<Seq<char>>) -> bool {
    header == Some("Bearer "@ + token)
}

/// Whether a request with this `Authorization` header may use the admin
/// interface.
pub fn admitted(token: &str, header: Option<&str>) -> (r: bool)
    ensures
        r == admits(token@, opt_str_view(header)),
{
    proof {
        law_gate_admits_only_the_key(token@, opt_str_view(header));
    }
    crate::proxy::admitted(Some(token), header)
}

/// The admin interface admits no request without a header, and no header that
/// carries another token, whatever the token is.
pub proof fn law_admin_gate_admits_only_the_token(
    token: Seq<char>,
    other: Seq<char>,
    header: Option<Seq<char>>,
)
    ensures
        !admits(token, None),
        admits(token, header) && admits(other, header) ==> token == other,
        admits(token, header) <==> crate::proxy::admits(Some(token), header),
{
    law_gate_admits_only_the_key(token, header);
    let p = "Bearer "@;
    if admits(token, header) && admits(other, header) {
        assert((p + token).skip(p.len() as int) =~= token);
        assert((p + other).skip(p.len() as int) =~= other);
    }
}

// ---------------------------------------------------------------------------
// Usage
// ---------------------------------------------------------------------------

/// The parts of a grouping are all dimensions.
pub open spec fn groups_known(grouping: Seq<char>) -> bool {
    forall|i: int|
        0 <= i < split_of(grouping, ',').len() ==> is_dimension(#[trigger] split_of(grouping, ',')[i])
}

pub open spec fn is_dimension(s: Seq<char>) -> bool {
    s.len() == 0 || s == "model"@ || s == "account_id"@ || s == "cache_key"@
}

fn dimensions_known(parts: &Vec<String>) -> (r: bool)
    ensures
        r == forall|i: int| 0 <= i < parts@.len() ==> is_dimension((#[trigger] views(parts@)[i])),
{
    for i in 0..parts.len()
        invariant
            forall|j: int| 0 <= j < i ==> is_dimension((#[trigger] views(parts@)[j])),
    {
        let p = parts[i].as_str();
        let known = p.is_empty() || same(p, "model") || same(p, "account_id") || same(
            p,
            "cache_key",
        );
        if !known {
            assert(!is_dimension(views(parts@)[i as int]));
            return false;
        }
        assert(is_dimension(views(parts@)[i as int]));
    }
    true
}

/// The query with the current month as its start, where it has neither start nor
/// end.
pub open spec fn bounded(query: UsageQuery, month_start: i64) -> UsageQuery {
    if query.from_ms is None && query.to_ms is None {
        UsageQuery { from_ms: Some(month_start), ..query }
    } else {
        query
    }
}

/// Why a query is refused.
pub open spec fn query_fault(query: UsageQuery, month_start: i64) -> Option<Seq<char>> {
    let q = bounded(query, month_start);
    if q.from_ms is Some && q.to_ms is Some && q.from_ms->0 >= q.to_ms->0 {
        Some("from_ms must precede to_ms"@)
    } else if !groups_known(query.grouping()) {
        Some("invalid group_by"@)
    } else if query.cache_key is Some && query.missing_key == Some(true) {
        Some("cache_key conflicts with missing_key"@)
    } else {
        None
    }
}

/// Checks a query; one without start and end is about the current month.
pub fn usage_query(query: UsageQuery, month_start_ms: i64) -> (r: Result<UsageQuery, String>)
    ensures
        match r {
            Ok(q) => query_fault(query, month_start_ms) is None && q == bounded(
                query,
                month_start_ms,
            ),
            Err(e) => query_fault(query, month_start_ms) == Some(e@),
        },
{
    let mut q = query;
    if q.from_ms.is_none() && q.to_ms.is_none() {
        q.from_ms = Some(month_start_ms);
    }
    if let (Some(from), Some(to)) = (q.from_ms, q.to_ms) {
        if from >= to {
            return Err("from_ms must precede to_ms".to_owned());
        }
    }
    let parts = match &q.group_by {
        Some(s) => split(s.as_str(), ','),
        None => split("", ','),
    };
    if !dimensions_known(&parts) {
        return Err("invalid group_by".to_owned());
    }
    let missing = match q.missing_key {
        Some(b) => b,
        None => false,
    };
    if q.cache_key.is_some() && missing {
        return Err("cache_key conflicts with missing_key".to_owned());
    }
    Ok(q)
}

/// A query that passed has a start or an end, and its start comes before its end.
pub proof fn law_checked_query_is_bounded(query: UsageQuery, month_start: i64)
    requires
        query_fault(query, month_start) is None,
    ensures
        ({
            let q = bounded(query, month_start);
            &&& q.from_ms is Some || q.to_ms is Some
            &&& q.from_ms is Some && q.to_ms is Some ==> q.from_ms->0 < q.to_ms->0
        }),
{
}

/// The query for the totals over all groups.
pub fn totals_query(query: &UsageQuery) -> (r: UsageQuery)
    ensures
        r == (UsageQuery { group_by: None, ..*query }),
{
    let mut q = query.clone();
    q.group_by = None;
    q
}

// ---------------------------------------------------------------------------
// Accounts
// ---------------------------------------------------------------------------

/// The status and the deadline of an account that is enabled: a cooling account
/// keeps both.
pub open spec fn enabled(status: AccountStatus, reset_at: i64) -> (AccountStatus, i64) {
    match status {
        AccountStatus::Cooling => (AccountStatus::Cooling, reset_at),
        _ => (AccountStatus::Healthy, 0i64),
    }
}

/// The status and the deadline of an account that is enabled.
pub fn enable_status(account: &Account) -> (r: (AccountStatus, i64))
    ensures
        r == enabled(account.status, account.reset_at),
{
    match account.status {
        AccountStatus::Cooling => (AccountStatus::Cooling, account.reset_at),
        AccountStatus::Disabled | AccountStatus::AuthError | AccountStatus::Healthy => (
            AccountStatus::Healthy,
            0,
        ),
    }
}

/// Enabling brings an account back that was off or rejected, and never cuts a
/// quota deadline short.
pub proof fn law_enable_recovers_but_keeps_quota(status: AccountStatus, reset_at: i64)
    ensures
        status == AccountStatus::Disabled || status == AccountStatus::AuthError || status
            == AccountStatus::Healthy ==> enabled(status, reset_at) == (
            AccountStatus::Healthy,
            0i64,
        ),
        status == AccountStatus::Cooling ==> enabled(status, reset_at) == (
            AccountStatus::Cooling,
            reset_at,
        ),
{
}

/// Sets the status of an account that the store knows: 204, or 404 where it does
/// not.
pub fn set_status(
    pool: &mut PoolCore,
    stored: bool,
    id: &str,
    status: AccountStatus,
    reset_at: i64,
) -> (r: u16)
    requires
        old(pool).wf(),
    ensures
        final(pool).wf(),
        r == (if stored {
            204u16
        } else {
            404u16
        }),
        final(pool)@ == (if stored {
            old(pool)@.with_status(id@, status, reset_at)
        } else {
            old(pool)@
        }),
{
    if !stored {
        return 404;
    }
    pool.set_status(id, status, reset_at);
    204
}

/// Switches an account off.
pub fn disable_account(pool: &mut PoolCore, stored: bool, id: &str) -> (r: u16)
    requires
        old(pool).wf(),
    ensures
        final(pool).wf(),
        r == (if stored {
            204u16
        } else {
            404u16
        }),
        final(pool)@ == (if stored {
            old(pool)@.with_status(id@, AccountStatus::Disabled, 0)
        } else {
            old(pool)@
        }),
{
    set_status(pool, stored, id, AccountStatus::Disabled, 0)
}

/// Switches a stored account on: its status and deadline, or nothing where the
/// store does not know it.
pub fn enable_account(pool: &mut PoolCore, stored: Option<&Account>) -> (r: Option<
    (AccountStatus, i64),
>)
    requires
        old(pool).wf(),
    ensures
        final(pool).wf(),
        match stored {
            Some(a) => r == Some(enabled(a.status, a.reset_at)) && final(pool)@ == old(
                pool,
            )@.with_status(
                a.id@,
                enabled(a.status, a.reset_at).0,
                enabled(a.status, a.reset_at).1,
            ),
            None => r is None && final(pool)@ == old(pool)@,
        },
{
    match stored {
        Some(a) => {
            let (status, reset_at) = enable_status(a);
            pool.set_status(a.id.as_str(), status, reset_at);
            Some((status, reset_at))
        },
        None => None,
    }
}

/// What the pool adds to an account as it is shown.
#[derive(Clone, Copy, Debug, PartialEq, Eq, Structural)]
pub struct AccountLoad {
    pub cooling_remaining_ms: i64,
    pub inflight: u32,
    pub sticky_sessions: usize,
}

/// What the pool adds to an account as it is shown.
pub fn account_view(pool: &PoolCore, account: &Account, now_ms: i64) -> (r: AccountLoad)
    requires
        pool.wf(),
    ensures
        r.cooling_remaining_ms == (if account.reset_at > now_ms {
            clamped(account.reset_at - now_ms)
        } else {
            0
        }),
        r.inflight == inflight_of(pool@, account.id@),
        r.sticky_sessions == sessions(pool@.listed_bindings(), account.id@),
{
    let cooling_remaining_ms = if account.reset_at > now_ms {
        minus(account.reset_at, now_ms)
    } else {
        0
    };
    let inflight = match pool.inflight(account.id.as_str()) {
        Some(n) => n,
        None => 0,
    };
    let bindings = pool.bindings();
    let sticky_sessions = session_count(&bindings, account.id.as_str());
    AccountLoad { cooling_remaining_ms, inflight, sticky_sessions }
}

/// The requests in flight on an account; none where it is unknown.
pub open spec fn inflight_of(v: PoolView, id: Seq<char>) -> u32 {
    if v.accounts.contains_key(id) {
        v.accounts[id].inflight
    } else {
        0
    }
}

// ---------------------------------------------------------------------------
// Sign-ins and catalogs
// ---------------------------------------------------------------------------

/// The backend that a sign-in is for, or why it cannot begin.
pub fn start_flow(body: Option<&StartFlowBody>) -> (r: Result<BackendId, String>)
    ensures
        match body {
            None => r matches Err(e) && e@ == "missing body"@,
            Some(b) => match BackendId::named(b.backend@) {
                Some(id) => r matches Ok(x) && x == id,
                None => r matches Err(e) && e@ == "unknown backend"@,
            },
        },
{
    match body {
        None => Err("missing body".to_owned()),
        Some(b) => match BackendId::parse(b.backend.as_str()) {
            Some(id) => Ok(id),
            None => Err("unknown backend".to_owned()),
        },
    }
}

/// Sets the catalog of the backend with the given name, if there is one.
pub fn put_catalog(pool: &mut PoolCore, backend: &str, body: &CatalogBody) -> (r: Option<BackendId>)
    requires
        old(pool).wf(),
    ensures
        final(pool).wf(),
        r == BackendId::named(backend@),
        final(pool)@ == (match BackendId::named(backend@) {
            Some(BackendId::Codex) => PoolView {
                codex_models: model_ids(body.models@).to_set(),
                ..old(pool)@
            },
            Some(BackendId::Copilot) => PoolView {
                copilot_models: model_ids(body.models@).to_set(),
                ..old(pool)@
            },
            None => old(pool)@,
        }),
{
    match BackendId::parse(backend) {
        Some(id) => {
            let ids = ids_of(&body.models);
            pool.set_catalog(id, ids);
            Some(id)
        },
        None => None,
    }
}

} // verus!
