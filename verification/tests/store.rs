use rusqlite::types::Value;
use rusqlite::{params_from_iter, Connection, OptionalExtension};
use std::collections::HashMap;
use underclass::models::{Account, AccountStatus, BackendId, Binding, ModelInfo};
use underclass::resets::LedgerRow;
use underclass::statements::{
    catalog, clear_reset_attempt, config_get, config_set, delete_account, finish_reset_attempt,
    get_account, insert_usage, monitor_account_totals, monitor_minute_rows, prune_bindings,
    read_account_totals, read_binding, save_reset_attempt, set_catalog, update_account_status,
    update_tokens, upsert_account, upsert_binding, AccountRow, Statement, LIST_ACCOUNTS,
    LIST_BINDINGS, LIST_RESETS,
};
use underclass::store::{
    migration, minute_bins, schema, SqlValue, UsageQuery, UsageRecord, UsageSummary,
};
use underclass::tokens::TokenUpdate;

fn value(v: SqlValue) -> Value {
    match v {
        SqlValue::Null => Value::Null,
        SqlValue::Integer(n) => Value::Integer(n),
        SqlValue::Text(s) => Value::Text(s),
    }
}

struct Store {
    conn: Connection,
}

impl Store {
    fn with(conn: Connection) -> Store {
        conn.execute_batch(schema()).unwrap();
        let mut columns: Vec<String> = Vec::new();
        {
            let mut stmt = conn.prepare("PRAGMA table_info(accounts)").unwrap();
            let mut rows = stmt.query([]).unwrap();
            while let Some(row) = rows.next().unwrap() {
                columns.push(row.get(1).unwrap());
            }
        }
        if let Some(sql) = migration(&columns) {
            conn.execute(sql, []).unwrap();
        }
        Store { conn }
    }

    fn in_memory() -> Store {
        Store::with(Connection::open_in_memory().unwrap())
    }

    fn run(&self, s: Statement) {
        self.conn.execute(s.sql, params_from_iter(s.values.into_iter().map(value))).unwrap();
    }

    fn rows(&self, sql: &str, values: Vec<SqlValue>) -> Vec<Vec<Value>> {
        let mut stmt = self.conn.prepare(sql).unwrap();
        let width = stmt.column_count();
        let mut rows = stmt.query(params_from_iter(values.into_iter().map(value))).unwrap();
        let mut out = Vec::new();
        while let Some(row) = rows.next().unwrap() {
            out.push((0..width).map(|i| row.get(i).unwrap()).collect());
        }
        out
    }

    fn accounts(&self) -> Vec<Account> {
        self.rows(LIST_ACCOUNTS, Vec::new()).into_iter().map(account_of).collect()
    }

    fn account(&self, id: &str) -> Option<Account> {
        let s = get_account(id);
        self.rows(s.sql, s.values).into_iter().next().map(account_of)
    }

    fn bindings(&self) -> Vec<Binding> {
        self.rows(LIST_BINDINGS, Vec::new())
            .into_iter()
            .map(|r| read_binding(text(&r[0]), text(&r[1]), &text(&r[2]), number(&r[3])))
            .collect()
    }

    fn ledger(&self) -> Vec<LedgerRow> {
        self.rows(LIST_RESETS, Vec::new())
            .into_iter()
            .map(|r| LedgerRow {
                account_id: text(&r[0]),
                credit_id: text(&r[1]),
                request_id: text(&r[2]),
                state: text(&r[3]),
            })
            .collect()
    }

    fn minute_bins(&self, now: i64) -> Vec<i64> {
        let s = monitor_minute_rows(now).unwrap();
        let rows: Vec<(i64, i64)> =
            self.rows(s.sql, s.values).iter().map(|r| (number(&r[0]), number(&r[1]))).collect();
        minute_bins(&rows, now)
    }

    fn account_totals(&self, from: i64, to: i64) -> Vec<UsageSummary> {
        let s = monitor_account_totals(from, to);
        self.rows(s.sql, s.values)
            .into_iter()
            .map(|r| {
                read_account_totals(
                    opt_text(&r[0]),
                    opt_text(&r[1]),
                    number(&r[2]),
                    number(&r[3]),
                    number(&r[4]),
                    number(&r[5]),
                )
            })
            .collect()
    }

    fn summary(&self, query: &UsageQuery) -> Vec<UsageSummary> {
        let (sql, values) = query.summary_sql();
        self.rows(&sql, values)
            .into_iter()
            .map(|r| UsageSummary {
                model: opt_text(&r[0]),
                account_id: opt_text(&r[1]),
                account_label: opt_text(&r[2]),
                cache_key: opt_text(&r[3]),
                requests: number(&r[4]),
                measured_requests: number(&r[5]),
                unknown_requests: number(&r[6]),
                input_tokens: number(&r[7]),
                output_tokens: number(&r[8]),
            })
            .collect()
    }

    fn records(&self, query: &UsageQuery) -> Vec<Vec<Value>> {
        let (sql, values) = query.records_sql();
        self.rows(&sql, values)
    }
}

fn text(v: &Value) -> String {
    opt_text(v).unwrap()
}

fn opt_text(v: &Value) -> Option<String> {
    match v {
        Value::Text(s) => Some(s.clone()),
        Value::Null => None,
        other => panic!("{other:?} is no text"),
    }
}

fn number(v: &Value) -> i64 {
    match v {
        Value::Integer(n) => *n,
        other => panic!("{other:?} is no number"),
    }
}

fn account_of(r: Vec<Value>) -> Account {
    AccountRow {
        id: text(&r[0]),
        backend: text(&r[1]),
        label: text(&r[2]),
        refresh_token: opt_text(&r[3]),
        access_token: opt_text(&r[4]),
        expires_at: number(&r[5]),
        account_id: opt_text(&r[6]),
        residency: opt_text(&r[7]),
        enterprise_url: opt_text(&r[8]),
        status: text(&r[9]),
        reset_at: number(&r[10]),
        created_at: number(&r[11]),
        updated_at: number(&r[12]),
        token_refreshed_at: number(&r[13]),
    }
    .read()
}

fn record(ts: i64, account: &str, input: Option<i64>, output: Option<i64>) -> UsageRecord {
    UsageRecord {
        id: 0,
        request_id: format!("request-{ts}"),
        ts,
        endpoint: "/v1/responses".into(),
        backend: "codex".into(),
        model: "model".into(),
        account_id: account.into(),
        account_label: account.into(),
        cache_key: Some("secret-session".into()),
        status: 200,
        input_tokens: input,
        output_tokens: output,
    }
}

/// A store created before the rotation column existed gains it, keeps its rows,
/// and reads them as never rotated.
#[test]
fn opening_a_legacy_store_adds_the_rotation_column_without_losing_rows() {
    let conn = Connection::open_in_memory().unwrap();
    conn.execute_batch(
        "CREATE TABLE accounts (
            id TEXT PRIMARY KEY,
            backend TEXT NOT NULL,
            label TEXT NOT NULL,
            refresh_token TEXT,
            access_token TEXT,
            expires_at INTEGER NOT NULL DEFAULT 0,
            account_id TEXT,
            residency TEXT,
            enterprise_url TEXT,
            status TEXT NOT NULL DEFAULT 'healthy',
            reset_at INTEGER NOT NULL DEFAULT 0,
            created_at INTEGER NOT NULL,
            updated_at INTEGER NOT NULL
        );
        INSERT INTO accounts (id, backend, label, refresh_token, access_token, expires_at,
                              status, reset_at, created_at, updated_at)
         VALUES ('legacy', 'codex', 'owner@example.test', 'refresh', 'access', 999,
                 'cooling', 4242, 7, 8);",
    )
    .unwrap();
    let store = Store::with(conn);
    let account = store.account("legacy").expect("legacy row must survive migration");
    assert_eq!(account.label, "owner@example.test");
    assert_eq!(account.expires_at, 999);
    assert_eq!(account.reset_at, 4242);
    assert_eq!(account.status, AccountStatus::Cooling);
    assert_eq!(account.token_refreshed_at, 0, "new column must default to never-rotated");
    let reopened = Store::with(store.conn);
    assert_eq!(reopened.accounts().len(), 1);
}

#[test]
fn monitor_buckets_and_account_totals_respect_bounds_and_unknowns() {
    let store = Store::in_memory();
    for (ts, account, input, output) in [
        (59_999, "a", Some(5), Some(2)),
        (60_000, "a", Some(10), Some(4)),
        (119_999, "a", None, None),
        (120_000, "b", Some(3), Some(1)),
    ] {
        store.run(insert_usage(&record(ts, account, input, output)));
    }
    let bins = store.minute_bins(120_000);
    assert_eq!(bins.len(), 60);
    assert_eq!(&bins[57..], &[1, 2, 1]);
    let totals = store.account_totals(60_000, 120_000);
    assert_eq!(totals.len(), 1);
    assert_eq!(
        (
            totals[0].requests,
            totals[0].unknown_requests,
            totals[0].input_tokens,
            totals[0].output_tokens
        ),
        (2, 1, 10, 4)
    );
    assert_eq!(totals[0].measured_requests, 1);
}

#[test]
fn usage_survives_reopen_and_splits_unknown_from_measured() {
    let uri = "file:underclass-usage?mode=memory&cache=shared";
    let first = Store::with(Connection::open(uri).unwrap());
    for (key, input) in
        [(Some("session-a"), Some(12)), (Some("session-a"), None), (Some("session-b"), Some(5))]
    {
        let mut row = record(100, "account-a", input, input.map(|n: i64| n / 2));
        row.model = "model-a".into();
        row.account_label = "alice".into();
        row.cache_key = key.map(str::to_string);
        first.run(insert_usage(&row));
    }
    let store = Store::with(Connection::open(uri).unwrap());
    drop(first);
    let query = UsageQuery {
        from_ms: Some(0),
        group_by: Some("model,account_id,cache_key".into()),
        cache_key: Some("session-a".into()),
        ..Default::default()
    };
    let group = &store.summary(&query)[0];
    assert_eq!(
        (
            group.requests,
            group.measured_requests,
            group.unknown_requests,
            group.input_tokens,
            group.output_tokens
        ),
        (2, 1, 1, 12, 6)
    );
    assert_eq!(group.account_label.as_deref(), Some("alice"));
    assert_eq!(store.records(&query).len(), 2);
    let page = store.summary(&UsageQuery {
        from_ms: Some(0),
        group_by: Some("cache_key".into()),
        limit: Some(1),
        offset: Some(1),
        ..Default::default()
    });
    assert_eq!(page.len(), 1);
}

fn binding(key: &str, bound_at: i64) -> Binding {
    Binding {
        cache_key: key.into(),
        account_id: "account".into(),
        backend: BackendId::Codex,
        bound_at,
    }
}

#[test]
fn pruning_removes_expired_rows_and_caps_newest_rows() {
    let store = Store::in_memory();
    for row in [binding("expired", 1), binding("old", 100), binding("new", 200)] {
        store.run(upsert_binding(&row));
    }

    for s in prune_bindings(250, 200, 1) {
        store.run(s);
    }

    let rows = store.bindings();
    assert_eq!(rows.len(), 1);
    assert_eq!(rows[0].cache_key, "new");
}

#[test]
fn pruning_bounds_saturate() {
    let plan = prune_bindings(i64::MIN, 1, usize::MAX);
    assert!(matches!(plan[0].values[..], [SqlValue::Integer(i64::MIN)]));
    assert!(matches!(plan[1].values[..], [SqlValue::Integer(i64::MAX)]));
}

struct Draw(u64);

impl Draw {
    fn next(&mut self, below: u64) -> u64 {
        self.0 = self.0.wrapping_mul(6_364_136_223_846_793_005).wrapping_add(1_442_695_040_888_963_407);
        (self.0 >> 33) % below
    }
}

#[test]
fn test_monitor_minute_bins_partition_recent_attempts() {
    let mut draw = Draw(1);
    for _ in 0..20 {
        let now = draw.next(6_000_000) as i64 - 1_000_000;
        let first_minute = now.div_euclid(60_000) - 59;
        let mut expected = vec![0i64; 60];
        let store = Store::in_memory();
        for _ in 0..draw.next(40) {
            let ts = now + draw.next(3_860_000) as i64 - 3_800_000;
            store.run(insert_usage(&record(ts, "account", None, None)));
            let minute = ts.div_euclid(60_000);
            if minute >= first_minute && ts <= now {
                expected[(minute - first_minute) as usize] += 1;
            }
        }
        assert_eq!(store.minute_bins(now), expected);
    }
}

#[test]
fn test_monitor_account_totals_partition_month_and_unknown_usage() {
    let mut draw = Draw(2);
    for _ in 0..20 {
        let store = Store::in_memory();
        let mut expected: HashMap<String, (i64, i64, i64, i64)> = HashMap::new();
        for _ in 0..draw.next(40) {
            let ts = draw.next(150_001) as i64;
            let amount = draw.next(201) as i64;
            let id = format!("account-{}", draw.next(6));
            let known = amount % 3 != 0;
            let input = if known { Some(amount) } else { None };
            let output = if known { Some(amount / 2) } else { None };
            store.run(insert_usage(&record(ts, &id, input, output)));
            if (1_000..100_000).contains(&ts) {
                let total = expected.entry(id).or_default();
                total.0 += 1;
                total.1 += i64::from(!known);
                total.2 += input.unwrap_or(0);
                total.3 += output.unwrap_or(0);
            }
        }
        let actual: HashMap<String, (i64, i64, i64, i64)> = store
            .account_totals(1_000, 100_000)
            .into_iter()
            .map(|row| {
                (
                    row.account_id.unwrap(),
                    (row.requests, row.unknown_requests, row.input_tokens, row.output_tokens),
                )
            })
            .collect();
        assert_eq!(actual, expected);
    }
}

#[test]
fn test_usage_groups_partition_measured_and_unknown_attempts() {
    let mut draw = Draw(3);
    for _ in 0..20 {
        let store = Store::in_memory();
        let count = draw.next(21) as i64;
        let (mut measured, mut unknown, mut expected_input) = (0i64, 0i64, 0i64);
        for i in 0..count {
            let sample = draw.next(201) as i64;
            let input = if sample % 2 == 0 { Some(sample) } else { None };
            match input {
                Some(value) => {
                    measured += 1;
                    expected_input += value;
                }
                None => unknown += 1,
            }
            let mut row = record(i, &format!("account-{}", i % 3), input, input);
            row.model = format!("model-{}", i % 2);
            row.account_label = format!("label-{}", i % 3);
            row.cache_key = Some(format!("key-{}", i % 4));
            store.run(insert_usage(&row));
        }
        let total = store.summary(&UsageQuery::default());
        assert_eq!(total[0].requests, count);
        assert_eq!(total[0].measured_requests, measured);
        assert_eq!(total[0].unknown_requests, unknown);
        assert_eq!(total[0].input_tokens, expected_input);
        let grouped = store.summary(&UsageQuery {
            group_by: Some("model,account_id,cache_key".into()),
            ..Default::default()
        });
        assert_eq!(grouped.iter().map(|g| g.requests).sum::<i64>(), count);
        assert_eq!(grouped.iter().map(|g| g.input_tokens).sum::<i64>(), expected_input);
    }
}

fn account(id: &str) -> Account {
    Account {
        id: id.into(),
        backend: BackendId::Copilot,
        label: "owner@example.test".into(),
        refresh_token: Some("refresh".into()),
        access_token: None,
        expires_at: 5,
        token_refreshed_at: 6,
        account_id: Some("chatgpt".into()),
        residency: None,
        enterprise_url: Some("corp.example".into()),
        status: AccountStatus::AuthError,
        reset_at: 7,
        created_at: 8,
        updated_at: 9,
    }
}

#[test]
fn stored_accounts_read_back() {
    let store = Store::in_memory();
    let a = account("a");
    store.run(upsert_account(&a));
    assert_eq!(format!("{:?}", store.account("a").unwrap()), format!("{a:?}"));
    assert!(store.account("b").is_none());

    // a second write replaces all but the backend and the time of creation
    let mut b = account("a");
    b.backend = BackendId::Codex;
    b.label = "renamed".into();
    b.status = AccountStatus::Healthy;
    b.created_at = 100;
    b.updated_at = 101;
    store.run(upsert_account(&b));
    let read = store.account("a").unwrap();
    assert_eq!((read.backend, read.created_at), (BackendId::Copilot, 8));
    assert_eq!((read.label.as_str(), read.updated_at), ("renamed", 101));
    assert_eq!(read.status, AccountStatus::Healthy);

    store.run(update_account_status("a", AccountStatus::Cooling, 77, 102));
    let read = store.account("a").unwrap();
    assert_eq!((read.status, read.reset_at, read.updated_at), (AccountStatus::Cooling, 77, 102));
}

#[test]
fn renewed_tokens_keep_what_is_not_told() {
    let store = Store::in_memory();
    store.run(upsert_account(&account("a")));
    let update = TokenUpdate {
        refresh_token: Some("new-refresh".into()),
        access_token: Some("new-access".into()),
        expires_at: 50,
        account_id: None,
        residency: Some("eu".into()),
    };
    store.run(update_tokens("a", &update, 60));
    let read = store.account("a").unwrap();
    assert_eq!(read.refresh_token.as_deref(), Some("new-refresh"));
    assert_eq!(read.access_token.as_deref(), Some("new-access"));
    assert_eq!(read.expires_at, 50);
    assert_eq!(read.account_id.as_deref(), Some("chatgpt"));
    assert_eq!(read.residency.as_deref(), Some("eu"));
    assert_eq!((read.token_refreshed_at, read.updated_at), (60, 60));

    let untold = TokenUpdate {
        refresh_token: None,
        access_token: Some("third-access".into()),
        expires_at: 70,
        account_id: Some("told".into()),
        residency: None,
    };
    store.run(update_tokens("a", &untold, 80));
    let read = store.account("a").unwrap();
    assert_eq!(read.refresh_token.as_deref(), Some("new-refresh"));
    assert_eq!(read.access_token.as_deref(), Some("third-access"));
    assert_eq!(read.account_id.as_deref(), Some("told"));
    assert_eq!(read.residency.as_deref(), Some("eu"));
    assert_eq!((read.expires_at, read.token_refreshed_at, read.updated_at), (70, 80, 80));
    assert_eq!((read.status, read.reset_at, read.created_at), (AccountStatus::AuthError, 7, 8));

    let none = TokenUpdate { access_token: None, ..untold };
    store.run(update_tokens("a", &none, 90));
    assert_eq!(store.account("a").unwrap().access_token, None);
}

#[test]
fn redemptions_keep_their_first_key() {
    let store = Store::in_memory();
    store.run(save_reset_attempt("a", "credit-1", "key-1", 1));
    store.run(save_reset_attempt("a", "credit-2", "key-2", 2));
    let rows = store.ledger();
    assert_eq!(rows.len(), 1);
    assert_eq!(
        (rows[0].credit_id.as_str(), rows[0].request_id.as_str(), rows[0].state.as_str()),
        ("credit-1", "key-1", "pending")
    );
    store.run(finish_reset_attempt("a"));
    assert_eq!(store.ledger()[0].state, "completed");
    store.run(clear_reset_attempt("a"));
    assert!(store.ledger().is_empty());
}

#[test]
fn removed_account_leaves_nothing_behind_but_its_usage() {
    let store = Store::in_memory();
    store.run(upsert_account(&account("a")));
    let mut b = binding("s", 1);
    b.account_id = "a".into();
    store.run(upsert_binding(&b));
    store.run(save_reset_attempt("a", "credit", "key", 1));
    store.run(insert_usage(&record(1, "a", Some(1), Some(1))));
    for s in delete_account("a") {
        store.run(s);
    }
    assert!(store.accounts().is_empty());
    assert!(store.bindings().is_empty());
    assert!(store.ledger().is_empty());
    assert_eq!(store.records(&UsageQuery::default()).len(), 1);
}

#[test]
fn catalogs_and_settings_are_replaced() {
    let store = Store::in_memory();
    let model = |id: &str| ModelInfo { id: id.into(), name: "N".into(), context: 3, input: 2, output: 1 };
    for s in set_catalog(BackendId::Codex, &vec![model("b"), model("a")]) {
        store.run(s);
    }
    for s in set_catalog(BackendId::Copilot, &vec![model("c")]) {
        store.run(s);
    }
    let ids = |backend: BackendId| {
        let s = catalog(backend);
        store.rows(s.sql, s.values).iter().map(|r| text(&r[0])).collect::<Vec<String>>()
    };
    assert_eq!(ids(BackendId::Codex), ["a", "b"]);
    for s in set_catalog(BackendId::Codex, &vec![model("z")]) {
        store.run(s);
    }
    assert_eq!(ids(BackendId::Codex), ["z"]);
    assert_eq!(ids(BackendId::Copilot), ["c"]);

    let read = |key: &str| {
        let s = config_get(key);
        let values: Vec<Value> = s.values.into_iter().map(value).collect();
        store
            .conn
            .query_row(s.sql, params_from_iter(values), |r| r.get::<usize, String>(0))
            .optional()
            .unwrap()
    };
    assert_eq!(read("ui_token"), None);
    store.run(config_set("ui_token", "one"));
    store.run(config_set("ui_token", "two"));
    assert_eq!(read("ui_token").as_deref(), Some("two"));
}

#[test]
fn minutes_before_time_cannot_be_told() {
    assert!(monitor_minute_rows(i64::MIN).is_none());
    assert!(monitor_minute_rows(0).is_some());
}
