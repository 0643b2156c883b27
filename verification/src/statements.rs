//! The statements that keep the pool in its tables: their text, the values that
//! go with them, and the rows that they give.
use crate::clock::{clamped, minus};
use crate::models::{
    law_backend_names_round_trip, Account, AccountStatus, BackendId, Binding, ModelInfo, ModelView,
};
use crate::store::{
    bins_start, first_minute, law_status_round_trips, parse_status, sql_views, status_name,
    status_named, status_str, stored_backend, RecordView, SqlValue, SqlView, UsageRecord,
    UsageSummary,
};
use crate::text::opt_view;
use crate::tokens::TokenUpdate;
use vstd::prelude::*;
use vstd::string::*;

verus! {

/// A statement and the values of its parameters, in order.
#[derive(Debug)]
pub struct Statement {
    pub sql: &'static str,
    pub values: Vec<SqlValue>,
}

impl Statement {
    /// The statement has this text and these values.
    pub open spec fn says(self, sql: Seq<char>, values: Seq<SqlView>) -> bool {
        self.sql@ == sql && sql_views(self.values@) == values
    }
}

// ---------------------------------------------------------------------------
// Values
// ---------------------------------------------------------------------------

pub open spec fn text_cell(s: Seq<char>) -> SqlView {
    SqlView::Text(s)
}

/// A text that may be missing.
pub open spec fn opt_text_cell(s: Option<Seq<char>>) -> SqlView {
    match s {
        Some(t) => SqlView::Text(t),
        None => SqlView::Null,
    }
}

/// A number that may be missing.
pub open spec fn opt_number_cell(n: Option<i64>) -> SqlView {
    match n {
        Some(i) => SqlView::Integer(i as int),
        None => SqlView::Null,
    }
}

fn text(s: &str) -> (r: SqlValue)
    ensures
        r@ == text_cell(s@),
{
    SqlValue::Text(s.to_owned())
}

fn opt_text(s: &Option<String>) -> (r: SqlValue)
    ensures
        r@ == opt_text_cell(opt_view(*s)),
{
    match s {
        Some(t) => SqlValue::Text(t.clone()),
        None => SqlValue::Null,
    }
}

fn opt_number(n: Option<i64>) -> (r: SqlValue)
    ensures
        r@ == opt_number_cell(n),
{
    match n {
        Some(i) => SqlValue::Integer(i),
        None => SqlValue::Null,
    }
}

// ---------------------------------------------------------------------------
// Accounts
// ---------------------------------------------------------------------------

/// All accounts, the oldest first.
pub const LIST_ACCOUNTS: &'static str = "SELECT id, backend, label, refresh_token, access_token, expires_at, account_id, residency, enterprise_url, status, reset_at, created_at, updated_at, token_refreshed_at FROM accounts ORDER BY created_at";

/// One account.
pub const GET_ACCOUNT: &'static str = "SELECT id, backend, label, refresh_token, access_token, expires_at, account_id, residency, enterprise_url, status, reset_at, created_at, updated_at, token_refreshed_at FROM accounts WHERE id = ?1";

/// Writes an account, over the one with its id if there is one.
pub const UPSERT_ACCOUNT: &'static str = "INSERT INTO accounts (id, backend, label, refresh_token, access_token, expires_at, account_id, residency, enterprise_url, status, reset_at, created_at, updated_at, token_refreshed_at) VALUES (?1,?2,?3,?4,?5,?6,?7,?8,?9,?10,?11,?12,?13,?14) ON CONFLICT(id) DO UPDATE SET label=?3, refresh_token=?4, access_token=?5, expires_at=?6, account_id=?7, residency=?8, enterprise_url=?9, status=?10, reset_at=?11, updated_at=?13, token_refreshed_at=?14";

pub const DELETE_ACCOUNT: &'static str = "DELETE FROM accounts WHERE id = ?1";

pub const DELETE_BINDINGS_OF: &'static str = "DELETE FROM bindings WHERE account_id = ?1";

pub const DELETE_RESET_OF: &'static str = "DELETE FROM reset_attempts WHERE account_id = ?1";

pub const UPDATE_STATUS: &'static str = "UPDATE accounts SET status = ?2, reset_at = ?3, updated_at = ?4 WHERE id = ?1";

/// Writes new tokens; what is not told stays as it was.
pub const UPDATE_TOKENS: &'static str = "UPDATE accounts SET refresh_token = COALESCE(?2, refresh_token), access_token = ?3, expires_at = ?4, account_id = COALESCE(?5, account_id), residency = COALESCE(?6, residency), token_refreshed_at = ?7, updated_at = ?7 WHERE id = ?1";

/// An account as the row that is written.
pub open spec fn account_cells(a: Account) -> Seq<SqlView> {
    seq![
        text_cell(a.id@),
        text_cell(a.backend.name()),
        text_cell(a.label@),
        opt_text_cell(opt_view(a.refresh_token)),
        opt_text_cell(opt_view(a.access_token)),
        SqlView::Integer(a.expires_at as int),
        opt_text_cell(opt_view(a.account_id)),
        opt_text_cell(opt_view(a.residency)),
        opt_text_cell(opt_view(a.enterprise_url)),
        text_cell(status_name(a.status)),
        SqlView::Integer(a.reset_at as int),
        SqlView::Integer(a.created_at as int),
        SqlView::Integer(a.updated_at as int),
        SqlView::Integer(a.token_refreshed_at as int),
    ]
}

/// Reads one account.
pub fn get_account(id: &str) -> (r: Statement)
    ensures
        r.says(GET_ACCOUNT@, seq![text_cell(id@)]),
{
    let values = vec![text(id)];
    assert(sql_views(values@) =~= seq![text_cell(id@)]);
    Statement { sql: GET_ACCOUNT, values }
}

/// Writes an account.
pub fn upsert_account(a: &Account) -> (r: Statement)
    ensures
        r.says(UPSERT_ACCOUNT@, account_cells(*a)),
{
    let values = vec![
        text(a.id.as_str()),
        text(a.backend.as_str()),
        text(a.label.as_str()),
        opt_text(&a.refresh_token),
        opt_text(&a.access_token),
        SqlValue::Integer(a.expires_at),
        opt_text(&a.account_id),
        opt_text(&a.residency),
        opt_text(&a.enterprise_url),
        text(status_str(a.status)),
        SqlValue::Integer(a.reset_at),
        SqlValue::Integer(a.created_at),
        SqlValue::Integer(a.updated_at),
        SqlValue::Integer(a.token_refreshed_at),
    ];
    assert(sql_views(values@) =~= account_cells(*a));
    Statement { sql: UPSERT_ACCOUNT, values }
}

/// Removes an account, its sessions and its redemption.
pub fn delete_account(id: &str) -> (r: Vec<Statement>)
    ensures
        r@.len() == 3,
        r@[0].says(DELETE_ACCOUNT@, seq![text_cell(id@)]),
        r@[1].says(DELETE_BINDINGS_OF@, seq![text_cell(id@)]),
        r@[2].says(DELETE_RESET_OF@, seq![text_cell(id@)]),
{
    let account = vec![text(id)];
    let bindings = vec![text(id)];
    let reset = vec![text(id)];
    assert(sql_views(account@) =~= seq![text_cell(id@)]);
    assert(sql_views(bindings@) =~= seq![text_cell(id@)]);
    assert(sql_views(reset@) =~= seq![text_cell(id@)]);
    vec![
        Statement { sql: DELETE_ACCOUNT, values: account },
        Statement { sql: DELETE_BINDINGS_OF, values: bindings },
        Statement { sql: DELETE_RESET_OF, values: reset },
    ]
}

/// Writes the status of an account.
pub fn update_account_status(id: &str, status: AccountStatus, reset_at: i64, now_ms: i64) -> (r:
    Statement)
    ensures
        r.says(
            UPDATE_STATUS@,
            seq![
                text_cell(id@),
                text_cell(status_name(status)),
                SqlView::Integer(reset_at as int),
                SqlView::Integer(now_ms as int),
            ],
        ),
{
    let values = vec![
        text(id),
        text(status_str(status)),
        SqlValue::Integer(reset_at),
        SqlValue::Integer(now_ms),
    ];
    assert(sql_views(values@) =~= seq![
        text_cell(id@),
        text_cell(status_name(status)),
        SqlView::Integer(reset_at as int),
        SqlView::Integer(now_ms as int),
    ]);
    Statement { sql: UPDATE_STATUS, values }
}

/// Renewed tokens as the values that are written: what is not told is missing.
pub open spec fn token_cells(id: Seq<char>, update: TokenUpdate, now: int) -> Seq<SqlView> {
    seq![
        text_cell(id),
        opt_text_cell(opt_view(update.refresh_token)),
        opt_text_cell(opt_view(update.access_token)),
        SqlView::Integer(update.expires_at as int),
        opt_text_cell(opt_view(update.account_id)),
        opt_text_cell(opt_view(update.residency)),
        SqlView::Integer(now),
    ]
}

/// Writes renewed tokens: the time of the write is also that of the renewal.
pub fn update_tokens(id: &str, update: &TokenUpdate, now_ms: i64) -> (r: Statement)
    ensures
        r.says(UPDATE_TOKENS@, token_cells(id@, *update, now_ms as int)),
{
    let values = vec![
        text(id),
        opt_text(&update.refresh_token),
        opt_text(&update.access_token),
        SqlValue::Integer(update.expires_at),
        opt_text(&update.account_id),
        opt_text(&update.residency),
        SqlValue::Integer(now_ms),
    ];
    assert(sql_views(values@) =~= token_cells(id@, *update, now_ms as int));
    Statement { sql: UPDATE_TOKENS, values }
}

/// A refresh token, account or residency that is not told is written as missing,
/// for which [`UPDATE_TOKENS`] keeps the stored one; one that is told is written.
pub proof fn law_untold_tokens_are_written_as_missing(id: Seq<char>, update: TokenUpdate, now: int)
    ensures
        update.refresh_token is None <==> token_cells(id, update, now)[1] == SqlView::Null,
        update.account_id is None <==> token_cells(id, update, now)[4] == SqlView::Null,
        update.residency is None <==> token_cells(id, update, now)[5] == SqlView::Null,
{
}

/// A row of [`LIST_ACCOUNTS`] or [`GET_ACCOUNT`], in the order of its columns.
#[derive(Debug)]
pub struct AccountRow {
    pub id: String,
    pub backend: String,
    pub label: String,
    pub refresh_token: Option<String>,
    pub access_token: Option<String>,
    pub expires_at: i64,
    pub account_id: Option<String>,
    pub residency: Option<String>,
    pub enterprise_url: Option<String>,
    pub status: String,
    pub reset_at: i64,
    pub created_at: i64,
    pub updated_at: i64,
    pub token_refreshed_at: i64,
}

impl AccountRow {
    /// The row, cell by cell.
    pub open spec fn cells(self) -> Seq<SqlView> {
        seq![
            text_cell(self.id@),
            text_cell(self.backend@),
            text_cell(self.label@),
            opt_text_cell(opt_view(self.refresh_token)),
            opt_text_cell(opt_view(self.access_token)),
            SqlView::Integer(self.expires_at as int),
            opt_text_cell(opt_view(self.account_id)),
            opt_text_cell(opt_view(self.residency)),
            opt_text_cell(opt_view(self.enterprise_url)),
            text_cell(self.status@),
            SqlView::Integer(self.reset_at as int),
            SqlView::Integer(self.created_at as int),
            SqlView::Integer(self.updated_at as int),
            SqlView::Integer(self.token_refreshed_at as int),
        ]
    }

    /// The account that the row holds.
    pub open spec fn account(self) -> Account {
        Account {
            id: self.id,
            backend: match BackendId::named(self.backend@) {
                Some(b) => b,
                None => BackendId::Codex,
            },
            label: self.label,
            refresh_token: self.refresh_token,
            access_token: self.access_token,
            expires_at: self.expires_at,
            token_refreshed_at: self.token_refreshed_at,
            account_id: self.account_id,
            residency: self.residency,
            enterprise_url: self.enterprise_url,
            status: status_named(self.status@),
            reset_at: self.reset_at,
            created_at: self.created_at,
            updated_at: self.updated_at,
        }
    }

    /// The account that the row holds.
    pub fn read(self) -> (r: Account)
        ensures
            r == self.account(),
    {
        let backend = stored_backend(self.backend.as_str());
        let status = parse_status(self.status.as_str());
        Account {
            id: self.id,
            backend,
            label: self.label,
            refresh_token: self.refresh_token,
            access_token: self.access_token,
            expires_at: self.expires_at,
            token_refreshed_at: self.token_refreshed_at,
            account_id: self.account_id,
            residency: self.residency,
            enterprise_url: self.enterprise_url,
            status,
            reset_at: self.reset_at,
            created_at: self.created_at,
            updated_at: self.updated_at,
        }
    }
}

/// A row with the cells that an account was written as holds that account.
pub proof fn law_stored_account_reads_back(row: AccountRow, a: Account)
    requires
        row.cells() == account_cells(a),
    ensures
        account_cells(row.account()) == account_cells(a),
        row.account().backend == a.backend,
        row.account().status == a.status,
{
    law_backend_names_round_trip(a.backend);
    law_status_round_trips(a.status);
    let cells = row.cells();
    let written = account_cells(a);
    assert(cells[1] == written[1]);
    assert(cells[9] == written[9]);
    assert forall|i: int| 0 <= i < 14 implies account_cells(row.account())[i] == #[trigger] written[i] by {
        assert(cells[i] == written[i]);
    }
    assert(account_cells(row.account()) =~= written);
}

// ---------------------------------------------------------------------------
// Sessions
// ---------------------------------------------------------------------------

pub const LIST_BINDINGS: &'static str = "SELECT cache_key, account_id, backend, bound_at FROM bindings";

/// Writes a session, over the one with its key if there is one.
pub const UPSERT_BINDING: &'static str = "INSERT INTO bindings (cache_key, account_id, backend, bound_at) VALUES (?1,?2,?3,?4) ON CONFLICT(cache_key) DO UPDATE SET account_id=?2, backend=?3, bound_at=?4";

pub const DELETE_EXPIRED_BINDINGS: &'static str = "DELETE FROM bindings WHERE bound_at < ?1";

/// Deletes all sessions but a number of the latest.
pub const DELETE_SURPLUS_BINDINGS: &'static str = "DELETE FROM bindings WHERE cache_key IN (SELECT cache_key FROM bindings ORDER BY bound_at DESC, cache_key DESC LIMIT -1 OFFSET ?1)";

/// Writes a session.
pub fn upsert_binding(b: &Binding) -> (r: Statement)
    ensures
        r.says(
            UPSERT_BINDING@,
            seq![
                text_cell(b.cache_key@),
                text_cell(b.account_id@),
                text_cell(b.backend.name()),
                SqlView::Integer(b.bound_at as int),
            ],
        ),
{
    let values = vec![
        text(b.cache_key.as_str()),
        text(b.account_id.as_str()),
        text(b.backend.as_str()),
        SqlValue::Integer(b.bound_at),
    ];
    assert(sql_views(values@) =~= seq![
        text_cell(b.cache_key@),
        text_cell(b.account_id@),
        text_cell(b.backend.name()),
        SqlView::Integer(b.bound_at as int),
    ]);
    Statement { sql: UPSERT_BINDING, values }
}

/// The session in a row of [`LIST_BINDINGS`].
pub fn read_binding(cache_key: String, account_id: String, backend: &str, bound_at: i64) -> (r:
    Binding)
    ensures
        r == (Binding {
            cache_key,
            account_id,
            backend: match BackendId::named(backend@) {
                Some(b) => b,
                None => BackendId::Codex,
            },
            bound_at,
        }),
{
    Binding { cache_key, account_id, backend: stored_backend(backend), bound_at }
}

/// Forgets the sessions that are older than `ttl_ms`, and then all but the `cap`
/// latest. Both statements belong in one transaction.
pub fn prune_bindings(now_ms: i64, ttl_ms: i64, cap: usize) -> (r: Vec<Statement>)
    ensures
        r@.len() == 2,
        r@[0].says(
            DELETE_EXPIRED_BINDINGS@,
            seq![SqlView::Integer(clamped(now_ms - ttl_ms) as int)],
        ),
        r@[1].says(
            DELETE_SURPLUS_BINDINGS@,
            seq![
                SqlView::Integer(
                    if cap <= i64::MAX {
                        cap as int
                    } else {
                        i64::MAX as int
                    },
                ),
            ],
        ),
{
    let keep: i64 = if cap as u128 <= i64::MAX as u128 {
        cap as i64
    } else {
        i64::MAX
    };
    let expired = vec![SqlValue::Integer(minus(now_ms, ttl_ms))];
    let surplus = vec![SqlValue::Integer(keep)];
    assert(sql_views(expired@) =~= seq![SqlView::Integer(clamped(now_ms - ttl_ms) as int)]);
    assert(sql_views(surplus@) =~= seq![SqlView::Integer(keep as int)]);
    vec![
        Statement { sql: DELETE_EXPIRED_BINDINGS, values: expired },
        Statement { sql: DELETE_SURPLUS_BINDINGS, values: surplus },
    ]
}

// ---------------------------------------------------------------------------
// Redemptions
// ---------------------------------------------------------------------------

pub const LIST_RESETS: &'static str = "SELECT account_id, credit_id, request_id, state FROM reset_attempts";

/// Writes a redemption, unless the account has one.
pub const SAVE_RESET: &'static str = "INSERT OR IGNORE INTO reset_attempts (account_id, credit_id, request_id, started_at) VALUES (?1, ?2, ?3, ?4)";

pub const FINISH_RESET: &'static str = "UPDATE reset_attempts SET state = 'completed' WHERE account_id = ?1";

/// Writes a redemption before it is made.
pub fn save_reset_attempt(account_id: &str, credit_id: &str, request_id: &str, now_ms: i64) -> (r:
    Statement)
    ensures
        r.says(
            SAVE_RESET@,
            seq![
                text_cell(account_id@),
                text_cell(credit_id@),
                text_cell(request_id@),
                SqlView::Integer(now_ms as int),
            ],
        ),
{
    let values = vec![
        text(account_id),
        text(credit_id),
        text(request_id),
        SqlValue::Integer(now_ms),
    ];
    assert(sql_views(values@) =~= seq![
        text_cell(account_id@),
        text_cell(credit_id@),
        text_cell(request_id@),
        SqlView::Integer(now_ms as int),
    ]);
    Statement { sql: SAVE_RESET, values }
}

/// Forgets the redemption of an account.
pub fn clear_reset_attempt(account_id: &str) -> (r: Statement)
    ensures
        r.says(DELETE_RESET_OF@, seq![text_cell(account_id@)]),
{
    let values = vec![text(account_id)];
    assert(sql_views(values@) =~= seq![text_cell(account_id@)]);
    Statement { sql: DELETE_RESET_OF, values }
}

/// Notes that the redemption of an account was made.
pub fn finish_reset_attempt(account_id: &str) -> (r: Statement)
    ensures
        r.says(FINISH_RESET@, seq![text_cell(account_id@)]),
{
    let values = vec![text(account_id)];
    assert(sql_views(values@) =~= seq![text_cell(account_id@)]);
    Statement { sql: FINISH_RESET, values }
}

// ---------------------------------------------------------------------------
// Catalogs and settings
// ---------------------------------------------------------------------------

pub const GET_CATALOG: &'static str = "SELECT model_id, name, context, input, output FROM catalog WHERE backend = ?1 ORDER BY model_id";

pub const CLEAR_CATALOG: &'static str = "DELETE FROM catalog WHERE backend = ?1";

pub const ADD_MODEL: &'static str = "INSERT INTO catalog (backend, model_id, name, context, input, output) VALUES (?1,?2,?3,?4,?5,?6)";

pub const GET_CONFIG: &'static str = "SELECT value FROM config WHERE key = ?1";

pub const SET_CONFIG: &'static str = "INSERT INTO config (key, value) VALUES (?1, ?2) ON CONFLICT(key) DO UPDATE SET value = ?2";

/// Reads the models of a backend.
pub fn catalog(backend: BackendId) -> (r: Statement)
    ensures
        r.says(GET_CATALOG@, seq![text_cell(backend.name())]),
{
    let values = vec![text(backend.as_str())];
    assert(sql_views(values@) =~= seq![text_cell(backend.name())]);
    Statement { sql: GET_CATALOG, values }
}

/// A model as the row that is written.
pub open spec fn model_cells(backend: BackendId, m: ModelView) -> Seq<SqlView> {
    seq![
        text_cell(backend.name()),
        text_cell(m.id),
        text_cell(m.name),
        SqlView::Integer(m.context as int),
        SqlView::Integer(m.input as int),
        SqlView::Integer(m.output as int),
    ]
}

/// Puts these models in the place of those of a backend: the old ones are
/// deleted, then each new one is written. All belong in one transaction.
pub fn set_catalog(backend: BackendId, models: &Vec<ModelInfo>) -> (r: Vec<Statement>)
    ensures
        r@.len() == models@.len() + 1,
        r@[0].says(CLEAR_CATALOG@, seq![text_cell(backend.name())]),
        forall|i: int|
            0 <= i < models@.len() ==> (#[trigger] r@[i + 1]).says(
                ADD_MODEL@,
                model_cells(backend, models@[i]@),
            ),
{
    let clear = vec![text(backend.as_str())];
    assert(sql_views(clear@) =~= seq![text_cell(backend.name())]);
    let mut all: Vec<Statement> = Vec::new();
    all.push(Statement { sql: CLEAR_CATALOG, values: clear });
    for k in 0..models.len()
        invariant
            all@.len() == k + 1,
            all@[0].says(CLEAR_CATALOG@, seq![text_cell(backend.name())]),
            forall|i: int|
                0 <= i < k ==> (#[trigger] all@[i + 1]).says(
                    ADD_MODEL@,
                    model_cells(backend, models@[i]@),
                ),
    {
        let m = &models[k];
        let values = vec![
            text(backend.as_str()),
            text(m.id.as_str()),
            text(m.name.as_str()),
            SqlValue::Integer(m.context),
            SqlValue::Integer(m.input),
            SqlValue::Integer(m.output),
        ];
        assert(sql_views(values@) =~= model_cells(backend, models@[k as int]@));
        all.push(Statement { sql: ADD_MODEL, values });
    }
    all
}

/// Reads a setting.
pub fn config_get(key: &str) -> (r: Statement)
    ensures
        r.says(GET_CONFIG@, seq![text_cell(key@)]),
{
    let values = vec![text(key)];
    assert(sql_views(values@) =~= seq![text_cell(key@)]);
    Statement { sql: GET_CONFIG, values }
}

/// Writes a setting.
pub fn config_set(key: &str, value: &str) -> (r: Statement)
    ensures
        r.says(SET_CONFIG@, seq![text_cell(key@), text_cell(value@)]),
{
    let values = vec![text(key), text(value)];
    assert(sql_views(values@) =~= seq![text_cell(key@), text_cell(value@)]);
    Statement { sql: SET_CONFIG, values }
}

// ---------------------------------------------------------------------------
// Usage
// ---------------------------------------------------------------------------

pub const INSERT_USAGE: &'static str = "INSERT INTO usage_records (request_id,ts,endpoint,backend,model,account_id,account_label,cache_key,status,input_tokens,output_tokens) VALUES (?1,?2,?3,?4,?5,?6,?7,?8,?9,?10,?11)";

/// The attempts of each minute, rounded down also before the epoch.
pub const COUNT_MINUTES: &'static str = "SELECT CASE WHEN ts >= 0 THEN ts / 60000 ELSE (ts - 59999) / 60000 END AS minute, COUNT(*) FROM usage_records WHERE ts >= ?1 AND ts <= ?2 GROUP BY minute";

/// The attempts of each account: how many, how many of unknown usage, and the
/// tokens.
pub const ACCOUNT_TOTALS: &'static str = "SELECT account_id, MAX(account_label), COUNT(*), SUM(CASE WHEN input_tokens IS NULL OR output_tokens IS NULL THEN 1 ELSE 0 END), COALESCE(SUM(input_tokens),0), COALESCE(SUM(output_tokens),0) FROM usage_records WHERE ts >= ?1 AND ts < ?2 GROUP BY account_id";

/// An attempt as the row that is written: counts that are not known stay
/// missing.
pub open spec fn record_cells(r: RecordView) -> Seq<SqlView> {
    seq![
        text_cell(r.request_id),
        SqlView::Integer(r.ts),
        text_cell(r.endpoint),
        text_cell(r.backend),
        text_cell(r.model),
        text_cell(r.account_id),
        text_cell(r.account_label),
        opt_text_cell(r.cache_key),
        SqlView::Integer(r.status as int),
        opt_number_cell(r.input_tokens),
        opt_number_cell(r.output_tokens),
    ]
}

/// Writes an attempt.
pub fn insert_usage(record: &UsageRecord) -> (r: Statement)
    ensures
        r.says(INSERT_USAGE@, record_cells(record@)),
{
    let values = vec![
        text(record.request_id.as_str()),
        SqlValue::Integer(record.ts),
        text(record.endpoint.as_str()),
        text(record.backend.as_str()),
        text(record.model.as_str()),
        text(record.account_id.as_str()),
        text(record.account_label.as_str()),
        opt_text(&record.cache_key),
        SqlValue::Integer(record.status as i64),
        opt_number(record.input_tokens),
        opt_number(record.output_tokens),
    ];
    assert(sql_views(values@) =~= record_cells(record@));
    Statement { sql: INSERT_USAGE, values }
}

/// Unknown usage is never stored as a number.
pub proof fn law_unknown_usage_stays_missing(r: RecordView)
    ensures
        r.input_tokens is None <==> record_cells(r)[9] == SqlView::Null,
        r.output_tokens is None <==> record_cells(r)[10] == SqlView::Null,
{
}

/// Counts the attempts of the sixty minutes that end with the one of `now`, if
/// their first instant can be told.
pub fn monitor_minute_rows(now_ms: i64) -> (r: Option<Statement>)
    ensures
        match r {
            Some(s) => first_minute(now_ms as int) * 60_000 >= i64::MIN && s.says(
                COUNT_MINUTES@,
                seq![
                    SqlView::Integer(first_minute(now_ms as int) * 60_000),
                    SqlView::Integer(now_ms as int),
                ],
            ),
            None => first_minute(now_ms as int) * 60_000 < i64::MIN,
        },
{
    let start = match bins_start(now_ms) {
        Some(start) => start,
        None => return None,
    };
    let values = vec![SqlValue::Integer(start), SqlValue::Integer(now_ms)];
    assert(sql_views(values@) =~= seq![
        SqlView::Integer(first_minute(now_ms as int) * 60_000),
        SqlView::Integer(now_ms as int),
    ]);
    Some(Statement { sql: COUNT_MINUTES, values })
}

/// Adds up the attempts of each account from one instant up to another.
pub fn monitor_account_totals(from_ms: i64, to_ms: i64) -> (r: Statement)
    ensures
        r.says(
            ACCOUNT_TOTALS@,
            seq![SqlView::Integer(from_ms as int), SqlView::Integer(to_ms as int)],
        ),
{
    let values = vec![SqlValue::Integer(from_ms), SqlValue::Integer(to_ms)];
    assert(sql_views(values@) =~= seq![
        SqlView::Integer(from_ms as int),
        SqlView::Integer(to_ms as int),
    ]);
    Statement { sql: ACCOUNT_TOTALS, values }
}

/// The totals in a row of [`ACCOUNT_TOTALS`]: the attempts that are not unknown
/// are measured.
pub fn read_account_totals(
    account_id: Option<String>,
    account_label: Option<String>,
    requests: i64,
    unknown: i64,
    input_tokens: i64,
    output_tokens: i64,
) -> (r: UsageSummary)
    requires
        0 <= unknown <= requests,
    ensures
        r == (UsageSummary {
            model: None,
            account_id,
            account_label,
            cache_key: None,
            requests,
            measured_requests: (requests - unknown) as i64,
            unknown_requests: unknown,
            input_tokens,
            output_tokens,
        }),
{
    UsageSummary {
        model: None,
        account_id,
        account_label,
        cache_key: None,
        requests,
        measured_requests: requests - unknown,
        unknown_requests: unknown,
        input_tokens,
        output_tokens,
    }
}

} // verus!
