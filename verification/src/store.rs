//! What is stored: the rows, the statements that read them, and the text form
//! of their values.
use crate::models::{AccountStatus, BackendId};
use crate::text::{holds, join, join2, joined, opt_view, same, split, split_of, views};
use vstd::prelude::*;
use vstd::string::*;

verus! {

// ---------------------------------------------------------------------------
// Status names
// ---------------------------------------------------------------------------

/// The text that a status is stored as.
pub open spec fn status_name(s: AccountStatus) -> Seq<char> {
    match s {
        AccountStatus::Healthy => "healthy"@,
        AccountStatus::Cooling => "cooling"@,
        AccountStatus::AuthError => "auth_error"@,
        AccountStatus::Disabled => "disabled"@,
    }
}

/// The status that a stored text stands for; unknown text stands for a healthy
/// account.
pub open spec fn status_named(s: Seq<char>) -> AccountStatus {
    if s == "cooling"@ {
        AccountStatus::Cooling
    } else if s == "auth_error"@ {
        AccountStatus::AuthError
    } else if s == "disabled"@ {
        AccountStatus::Disabled
    } else {
        AccountStatus::Healthy
    }
}

pub fn status_str(s: AccountStatus) -> (r: &'static str)
    ensures
        r@ == status_name(s),
{
    match s {
        AccountStatus::Healthy => "healthy",
        AccountStatus::Cooling => "cooling",
        AccountStatus::AuthError => "auth_error",
        AccountStatus::Disabled => "disabled",
    }
}

pub fn parse_status(s: &str) -> (r: AccountStatus)
    ensures
        r == status_named(s@),
{
    if same(s, "cooling") {
        AccountStatus::Cooling
    } else if same(s, "auth_error") {
        AccountStatus::AuthError
    } else if same(s, "disabled") {
        AccountStatus::Disabled
    } else {
        AccountStatus::Healthy
    }
}

/// A status that was stored is read back as it was.
pub proof fn law_status_round_trips(s: AccountStatus)
    ensures
        status_named(status_name(s)) == s,
{
    reveal_strlit("healthy");
    reveal_strlit("cooling");
    reveal_strlit("auth_error");
    reveal_strlit("disabled");
    assert("healthy"@[0] == 'h' && "cooling"@[0] == 'c' && "auth_error"@[0] == 'a');
    assert("disabled"@[0] == 'd');
}

/// The backend that a stored text stands for; unknown text stands for Codex.
pub fn stored_backend(s: &str) -> (r: BackendId)
    ensures
        r == (match BackendId::named(s@) {
            Some(b) => b,
            None => BackendId::Codex,
        }),
{
    match BackendId::parse(s) {
        Some(b) => b,
        None => BackendId::Codex,
    }
}

// ---------------------------------------------------------------------------
// Usage
// ---------------------------------------------------------------------------

/// One upstream attempt and the tokens that it used; what is not known is left
/// out.
#[derive(Debug)]
pub struct UsageRecord {
    pub id: i64,
    pub request_id: String,
    pub ts: i64,
    pub endpoint: String,
    pub backend: String,
    pub model: String,
    pub account_id: String,
    pub account_label: String,
    pub cache_key: Option<String>,
    pub status: u16,
    pub input_tokens: Option<i64>,
    pub output_tokens: Option<i64>,
}

pub struct RecordView {
    pub id: int,
    pub request_id: Seq<char>,
    pub ts: int,
    pub endpoint: Seq<char>,
    pub backend: Seq<char>,
    pub model: Seq<char>,
    pub account_id: Seq<char>,
    pub account_label: Seq<char>,
    pub cache_key: Option<Seq<char>>,
    pub status: u16,
    pub input_tokens: Option<i64>,
    pub output_tokens: Option<i64>,
}

impl View for UsageRecord {
    type V = RecordView;

    open spec fn view(&self) -> RecordView {
        RecordView {
            id: self.id as int,
            request_id: self.request_id@,
            ts: self.ts as int,
            endpoint: self.endpoint@,
            backend: self.backend@,
            model: self.model@,
            account_id: self.account_id@,
            account_label: self.account_label@,
            cache_key: opt_view(self.cache_key),
            status: self.status,
            input_tokens: self.input_tokens,
            output_tokens: self.output_tokens,
        }
    }
}

impl Clone for UsageRecord {
    fn clone(&self) -> (r: Self)
        ensures
            r == *self,
    {
        UsageRecord {
            id: self.id,
            request_id: self.request_id.clone(),
            ts: self.ts,
            endpoint: self.endpoint.clone(),
            backend: self.backend.clone(),
            model: self.model.clone(),
            account_id: self.account_id.clone(),
            account_label: self.account_label.clone(),
            cache_key: self.cache_key.clone(),
            status: self.status,
            input_tokens: self.input_tokens,
            output_tokens: self.output_tokens,
        }
    }
}

/// The totals of a group of attempts.
#[derive(Debug)]
pub struct UsageSummary {
    pub model: Option<String>,
    pub account_id: Option<String>,
    pub account_label: Option<String>,
    pub cache_key: Option<String>,
    pub requests: i64,
    pub measured_requests: i64,
    pub unknown_requests: i64,
    pub input_tokens: i64,
    pub output_tokens: i64,
}

impl Clone for UsageSummary {
    fn clone(&self) -> (r: Self)
        ensures
            r == *self,
    {
        UsageSummary {
            model: self.model.clone(),
            account_id: self.account_id.clone(),
            account_label: self.account_label.clone(),
            cache_key: self.cache_key.clone(),
            requests: self.requests,
            measured_requests: self.measured_requests,
            unknown_requests: self.unknown_requests,
            input_tokens: self.input_tokens,
            output_tokens: self.output_tokens,
        }
    }
}

/// Which attempts are asked for, how they are grouped, and which page of them.
#[derive(Debug)]
pub struct UsageQuery {
    pub from_ms: Option<i64>,
    pub to_ms: Option<i64>,
    pub model: Option<String>,
    pub account_id: Option<String>,
    pub cache_key: Option<String>,
    pub missing_key: Option<bool>,
    pub group_by: Option<String>,
    pub limit: Option<usize>,
    pub offset: Option<usize>,
}

impl Clone for UsageQuery {
    fn clone(&self) -> (r: Self)
        ensures
            r == *self,
    {
        UsageQuery {
            from_ms: self.from_ms,
            to_ms: self.to_ms,
            model: self.model.clone(),
            account_id: self.account_id.clone(),
            cache_key: self.cache_key.clone(),
            missing_key: self.missing_key,
            group_by: self.group_by.clone(),
            limit: self.limit,
            offset: self.offset,
        }
    }
}

impl Default for UsageQuery {
    /// All attempts, in one group.
    fn default() -> (r: Self)
        ensures
            r == (UsageQuery {
                from_ms: None,
                to_ms: None,
                model: None,
                account_id: None,
                cache_key: None,
                missing_key: None,
                group_by: None,
                limit: None,
                offset: None,
            }),
    {
        UsageQuery {
            from_ms: None,
            to_ms: None,
            model: None,
            account_id: None,
            cache_key: None,
            missing_key: None,
            group_by: None,
            limit: None,
            offset: None,
        }
    }
}

/// A value that takes the place of a `?` in a statement.
#[derive(Debug)]
pub enum SqlValue {
    Null,
    Integer(i64),
    Text(String),
}

pub enum SqlView {
    Null,
    Integer(int),
    Text(Seq<char>),
}

impl View for SqlValue {
    type V = SqlView;

    open spec fn view(&self) -> SqlView {
        match self {
            SqlValue::Null => SqlView::Null,
            SqlValue::Integer(i) => SqlView::Integer(*i as int),
            SqlValue::Text(s) => SqlView::Text(s@),
        }
    }
}

pub open spec fn sql_views(s: Seq<SqlValue>) -> Seq<SqlView> {
    s.map_values(|v: SqlValue| v@)
}

/// A list of one item if it is wanted, else an empty one.
pub open spec fn only_if<A>(wanted: bool, item: A) -> Seq<A> {
    if wanted {
        seq![item]
    } else {
        Seq::empty()
    }
}

impl UsageQuery {
    /// The conditions on a row, in order.
    pub open spec fn conditions(self) -> Seq<Seq<char>> {
        seq!["1=1"@] + only_if(self.from_ms is Some, "ts >= ?"@) + only_if(
            self.to_ms is Some,
            "ts < ?"@,
        ) + only_if(self.model is Some, "model = ?"@) + only_if(
            self.account_id is Some,
            "account_id = ?"@,
        ) + only_if(self.cache_key is Some, "cache_key = ?"@) + only_if(
            self.missing_key == Some(true),
            "cache_key IS NULL"@,
        )
    }

    /// The values that the conditions ask for, in order.
    pub open spec fn bounds(self) -> Seq<SqlView> {
        only_if(self.from_ms is Some, SqlView::Integer(self.from_ms->0 as int)) + only_if(
            self.to_ms is Some,
            SqlView::Integer(self.to_ms->0 as int),
        ) + only_if(self.model is Some, SqlView::Text(self.model->0@)) + only_if(
            self.account_id is Some,
            SqlView::Text(self.account_id->0@),
        ) + only_if(self.cache_key is Some, SqlView::Text(self.cache_key->0@))
    }

    /// The condition on a row, and the values that it asks for.
    pub fn where_sql(&self) -> (r: (String, Vec<SqlValue>))
        ensures
            r.0@ == joined(self.conditions(), " AND "@),
            sql_views(r.1@) == self.bounds(),
    {
        let mut parts: Vec<String> = Vec::new();
        let mut values: Vec<SqlValue> = Vec::new();
        parts.push("1=1".to_owned());
        if let Some(ms) = self.from_ms {
            parts.push("ts >= ?".to_owned());
            values.push(SqlValue::Integer(ms));
        }
        if let Some(ms) = self.to_ms {
            parts.push("ts < ?".to_owned());
            values.push(SqlValue::Integer(ms));
        }
        if let Some(s) = &self.model {
            parts.push("model = ?".to_owned());
            values.push(SqlValue::Text(s.clone()));
        }
        if let Some(s) = &self.account_id {
            parts.push("account_id = ?".to_owned());
            values.push(SqlValue::Text(s.clone()));
        }
        if let Some(s) = &self.cache_key {
            parts.push("cache_key = ?".to_owned());
            values.push(SqlValue::Text(s.clone()));
        }
        let missing = match self.missing_key {
            Some(b) => b,
            None => false,
        };
        if missing {
            parts.push("cache_key IS NULL".to_owned());
        }
        assert(views(parts@) =~= self.conditions());
        assert(sql_views(values@) =~= self.bounds());
        (join(&parts, " AND "), values)
    }

    /// The text that names the dimensions to group by.
    pub open spec fn grouping(self) -> Seq<char> {
        match self.group_by {
            Some(s) => s@,
            None => ""@,
        }
    }

    /// The attempts are grouped by this dimension.
    pub open spec fn groups_by(self, name: Seq<char>) -> bool {
        split_of(self.grouping(), ',').contains(name)
    }

    /// The dimensions to group by, in order.
    pub open spec fn groups(self) -> Seq<Seq<char>> {
        only_if(self.groups_by("model"@), "model"@) + only_if(
            self.groups_by("account_id"@),
            "account_id"@,
        ) + only_if(self.groups_by("cache_key"@), "cache_key"@)
    }

    /// A dimension as a column: nothing, where the attempts are not grouped by
    /// it.
    pub open spec fn column(self, name: Seq<char>) -> Seq<char> {
        if self.groups_by(name) {
            name
        } else {
            "NULL AS "@ + name
        }
    }

    /// The rows of a page: one hundred unless asked otherwise, from one to a
    /// thousand.
    pub open spec fn page_rows(self) -> int {
        match self.limit {
            Some(n) => if n < 1 {
                1
            } else if n > 1000 {
                1000
            } else {
                n as int
            },
            None => 100,
        }
    }

    /// The rows before a page.
    pub open spec fn page_start(self) -> int {
        match self.offset {
            Some(n) => if n > i64::MAX {
                i64::MAX as int
            } else {
                n as int
            },
            None => 0,
        }
    }

    fn page(&self) -> (r: (i64, i64))
        ensures
            r.0 == self.page_rows(),
            r.1 == self.page_start(),
    {
        let rows: i64 = match self.limit {
            Some(n) => if n < 1 {
                1
            } else if n > 1000 {
                1000
            } else {
                n as i64
            },
            None => 100,
        };
        let start: i64 = match self.offset {
            Some(n) => if n as u128 > i64::MAX as u128 {
                i64::MAX
            } else {
                n as i64
            },
            None => 0,
        };
        (rows, start)
    }

    /// The statement that adds up the attempts of each group.
    pub open spec fn summary_text(self) -> Seq<char> {
        "SELECT "@ + self.column("model"@) + ","@ + self.column("account_id"@) + ","@ + (
        if self.groups_by("account_id"@) {
            "MAX(account_label) AS account_label"@
        } else {
            "NULL AS account_label"@
        }) + ","@ + self.column("cache_key"@) + SUMMARY_COLUMNS@ + joined(
            self.conditions(),
            " AND "@,
        ) + (if self.groups().len() == 0 {
            ""@
        } else {
            " GROUP BY "@ + joined(self.groups(), ","@)
        }) + " ORDER BY input_tokens DESC,model,account_id,cache_key"@ + (if self.groups().len()
            == 0 {
            ""@
        } else {
            " LIMIT ? OFFSET ?"@
        })
    }

    fn column_sql(grouped: bool, name: &str) -> (r: String)
        ensures
            r@ == (if grouped {
                name@
            } else {
                "NULL AS "@ + name@
            }),
    {
        if grouped {
            name.to_owned()
        } else {
            join2("NULL AS ", name)
        }
    }

    /// The statement that adds up the attempts of each group, and its values.
    pub fn summary_sql(&self) -> (r: (String, Vec<SqlValue>))
        ensures
            r.0@ == self.summary_text(),
            sql_views(r.1@) == self.bounds() + (if self.groups().len() == 0 {
                Seq::empty()
            } else {
                seq![SqlView::Integer(self.page_rows()), SqlView::Integer(self.page_start())]
            }),
    {
        let requested = match &self.group_by {
            Some(s) => split(s.as_str(), ','),
            None => split("", ','),
        };
        let model = holds(&requested, "model");
        let account = holds(&requested, "account_id");
        let key = holds(&requested, "cache_key");
        let mut names: Vec<String> = Vec::new();
        if model {
            names.push("model".to_owned());
        }
        if account {
            names.push("account_id".to_owned());
        }
        if key {
            names.push("cache_key".to_owned());
        }
        assert(views(names@) =~= self.groups());
        let (filter, mut values) = self.where_sql();
        let ghost bounds = values@;
        let mut sql = "SELECT ".to_owned();
        sql.append(UsageQuery::column_sql(model, "model").as_str());
        sql.append(",");
        sql.append(UsageQuery::column_sql(account, "account_id").as_str());
        sql.append(",");
        if account {
            sql.append("MAX(account_label) AS account_label");
        } else {
            sql.append("NULL AS account_label");
        }
        sql.append(",");
        sql.append(UsageQuery::column_sql(key, "cache_key").as_str());
        sql.append(SUMMARY_COLUMNS);
        sql.append(filter.as_str());
        if names.len() > 0 {
            let list = join(&names, ",");
            sql.append(join2(" GROUP BY ", list.as_str()).as_str());
        } else {
            sql.append("");
        }
        sql.append(" ORDER BY input_tokens DESC,model,account_id,cache_key");
        if names.len() > 0 {
            sql.append(" LIMIT ? OFFSET ?");
            let (rows, start) = self.page();
            values.push(SqlValue::Integer(rows));
            values.push(SqlValue::Integer(start));
            assert(sql_views(values@) =~= sql_views(bounds) + seq![
                SqlView::Integer(self.page_rows()),
                SqlView::Integer(self.page_start()),
            ]);
        } else {
            sql.append("");
            assert(sql_views(values@) =~= sql_views(bounds) + Seq::<SqlView>::empty());
        }
        (sql, values)
    }

    /// The statement that lists the attempts, the latest first, and its values.
    pub fn records_sql(&self) -> (r: (String, Vec<SqlValue>))
        ensures
            r.0@ == RECORD_COLUMNS@ + joined(self.conditions(), " AND "@)
                + " ORDER BY ts DESC,id DESC LIMIT ? OFFSET ?"@,
            sql_views(r.1@) == self.bounds() + seq![
                SqlView::Integer(self.page_rows()),
                SqlView::Integer(self.page_start()),
            ],
    {
        let (filter, mut values) = self.where_sql();
        let ghost bounds = values@;
        let (rows, start) = self.page();
        values.push(SqlValue::Integer(rows));
        values.push(SqlValue::Integer(start));
        assert(sql_views(values@) =~= sql_views(bounds) + seq![
            SqlView::Integer(self.page_rows()),
            SqlView::Integer(self.page_start()),
        ]);
        let mut sql = RECORD_COLUMNS.to_owned();
        sql.append(filter.as_str());
        sql.append(" ORDER BY ts DESC,id DESC LIMIT ? OFFSET ?");
        (sql, values)
    }
}

/// The totals of a group, and where they come from.
pub const SUMMARY_COLUMNS: &'static str = ",COUNT(*),COALESCE(SUM(CASE WHEN input_tokens IS NOT NULL AND output_tokens IS NOT NULL THEN 1 ELSE 0 END),0),COALESCE(SUM(CASE WHEN input_tokens IS NULL OR output_tokens IS NULL THEN 1 ELSE 0 END),0),COALESCE(SUM(input_tokens),0) AS input_tokens,COALESCE(SUM(output_tokens),0) AS output_tokens FROM usage_records WHERE ";

/// The columns of an attempt, and where they come from.
pub const RECORD_COLUMNS: &'static str = "SELECT id,request_id,ts,endpoint,backend,model,account_id,account_label,cache_key,status,input_tokens,output_tokens FROM usage_records WHERE ";

/// Each condition with a `?` has its value: as many values as such conditions.
pub proof fn law_every_condition_has_its_value(q: UsageQuery)
    ensures
        q.bounds().len() + 1 + (if q.missing_key == Some(true) {
            1int
        } else {
            0int
        }) == q.conditions().len(),
{
}

/// However large a page is asked for, it holds from one to a thousand rows.
pub proof fn law_pages_are_bounded(q: UsageQuery)
    ensures
        1 <= q.page_rows() <= 1000,
        0 <= q.page_start() <= i64::MAX,
{
}

// ---------------------------------------------------------------------------
// Minutes
// ---------------------------------------------------------------------------

/// The minute of an instant, rounded down.
pub open spec fn minute_of(ms: int) -> int {
    ms / 60_000
}

/// The first of the sixty minutes that end with the one of `now`.
pub open spec fn first_minute(now: int) -> int {
    minute_of(now) - 59
}

/// The minute of an instant, rounded down.
pub fn minute(ms: i64) -> (r: i64)
    ensures
        r == minute_of(ms as int),
{
    let shift: i128 = 200_000_000_000_000;
    let wide: i128 = ms as i128 + shift * 60_000;
    let m: i128 = wide / 60_000 - shift;
    proof {
        let w = wide as int;
        assert(w / 60_000 == ms as int / 60_000 + 200_000_000_000_000);
    }
    m as i64
}

/// The first instant of the sixty minutes that end with the one of `now`, if it
/// can be told.
pub fn bins_start(now_ms: i64) -> (r: Option<i64>)
    ensures
        r == (if first_minute(now_ms as int) * 60_000 >= i64::MIN {
            Some((first_minute(now_ms as int) * 60_000) as i64)
        } else {
            None
        }),
{
    let first: i128 = minute(now_ms) as i128 - 59;
    let start: i128 = first * 60_000;
    if start >= i64::MIN as i128 {
        Some(start as i64)
    } else {
        None
    }
}

/// The count that the rows give for a minute: that of the last row about it,
/// else zero.
pub open spec fn count_for(rows: Seq<(i64, i64)>, minute: int) -> i64
    decreases rows.len(),
{
    if rows.len() == 0 {
        0
    } else if rows.last().0 == minute {
        rows.last().1
    } else {
        count_for(rows.drop_last(), minute)
    }
}

/// The counts of the sixty minutes that end with the one of `now`, from rows of
/// a minute and its count.
pub fn minute_bins(rows: &Vec<(i64, i64)>, now_ms: i64) -> (r: Vec<i64>)
    ensures
        r@ == Seq::new(60, |k: int| count_for(rows@, first_minute(now_ms as int) + k)),
{
    let first: i128 = minute(now_ms) as i128 - 59;
    let mut bins: Vec<i64> = Vec::new();
    for k in 0..60
        invariant
            bins@.len() == k,
            forall|j: int| 0 <= j < k ==> bins@[j] == 0,
    {
        bins.push(0);
    }
    assert(rows@.take(0) =~= Seq::<(i64, i64)>::empty());
    for i in 0..rows.len()
        invariant
            first == first_minute(now_ms as int),
            i64::MIN - 60 <= first <= i64::MAX,
            bins@.len() == 60,
            forall|k: int|
                0 <= k < 60 ==> #[trigger] bins@[k] == count_for(rows@.take(i as int), first + k),
    {
        assert(rows@.take(i + 1).drop_last() =~= rows@.take(i as int));
        let (m, count) = rows[i];
        let index: i128 = m as i128 - first;
        if 0 <= index && index < 60 {
            bins.set(index as usize, count);
        }
    }
    assert(rows@.take(rows@.len() as int) =~= rows@);
    bins
}

// ---------------------------------------------------------------------------
// Tables
// ---------------------------------------------------------------------------

/// The tables, as they are created where they are missing.
pub const SCHEMA: &'static str = "
    CREATE TABLE IF NOT EXISTS accounts (
        id TEXT PRIMARY KEY,
        backend TEXT NOT NULL,
        label TEXT NOT NULL,
        refresh_token TEXT,
        access_token TEXT,
        expires_at INTEGER NOT NULL DEFAULT 0,
        token_refreshed_at INTEGER NOT NULL DEFAULT 0,
        account_id TEXT,
        residency TEXT,
        enterprise_url TEXT,
        status TEXT NOT NULL DEFAULT 'healthy',
        reset_at INTEGER NOT NULL DEFAULT 0,
        created_at INTEGER NOT NULL,
        updated_at INTEGER NOT NULL
    );
    CREATE TABLE IF NOT EXISTS bindings (
        cache_key TEXT PRIMARY KEY,
        account_id TEXT NOT NULL,
        backend TEXT NOT NULL,
        bound_at INTEGER NOT NULL
    );
    CREATE TABLE IF NOT EXISTS catalog (
        backend TEXT NOT NULL,
        model_id TEXT NOT NULL,
        name TEXT NOT NULL DEFAULT '',
        context INTEGER NOT NULL DEFAULT 0,
        input INTEGER NOT NULL DEFAULT 0,
        output INTEGER NOT NULL DEFAULT 0,
        PRIMARY KEY (backend, model_id)
    );
    CREATE TABLE IF NOT EXISTS config (
        key TEXT PRIMARY KEY,
        value TEXT NOT NULL
    );
    CREATE TABLE IF NOT EXISTS reset_attempts (
        account_id TEXT PRIMARY KEY,
        credit_id TEXT NOT NULL,
        request_id TEXT NOT NULL,
        state TEXT NOT NULL DEFAULT 'pending',
        started_at INTEGER NOT NULL
    );
    CREATE TABLE IF NOT EXISTS usage_records (
        id INTEGER PRIMARY KEY AUTOINCREMENT,
        request_id TEXT NOT NULL,
        ts INTEGER NOT NULL,
        endpoint TEXT NOT NULL,
        backend TEXT NOT NULL,
        model TEXT NOT NULL,
        account_id TEXT NOT NULL,
        account_label TEXT NOT NULL,
        cache_key TEXT,
        status INTEGER NOT NULL,
        input_tokens INTEGER,
        output_tokens INTEGER
    );
    CREATE INDEX IF NOT EXISTS usage_records_ts ON usage_records(ts, id);
    CREATE INDEX IF NOT EXISTS usage_records_dims ON usage_records(model, account_id, cache_key, ts);
    ";

/// The statement that creates the tables.
pub fn schema() -> (r: &'static str)
    ensures
        r@ == SCHEMA@,
{
    SCHEMA
}

/// The column that stores written before token rotation lack.
pub const ROTATION_COLUMN: &'static str = "token_refreshed_at";

/// The statement that adds the rotation column to a table with the given
/// columns, where it lacks it.
pub fn migration(columns: &Vec<String>) -> (r: Option<&'static str>)
    ensures
        match r {
            Some(sql) => !views(columns@).contains(ROTATION_COLUMN@) && sql@
                == "ALTER TABLE accounts ADD COLUMN token_refreshed_at INTEGER NOT NULL DEFAULT 0"@,
            None => views(columns@).contains(ROTATION_COLUMN@),
        },
{
    if holds(columns, ROTATION_COLUMN) {
        None
    } else {
        Some("ALTER TABLE accounts ADD COLUMN token_refreshed_at INTEGER NOT NULL DEFAULT 0")
    }
}

} // verus!
