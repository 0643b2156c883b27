use underclass::config::{default_config_dir, default_data_dir, Config, EnvConfig, FileConfig};
use underclass::flows::{new_account, FlowRegistry, FlowState};
use underclass::headers::fits_header;
use underclass::json::{json_bytes, parse_json};
use underclass::logging::{
    log_account_state, log_request_completed, log_request_selected, log_reset_account,
    log_reset_decision, log_reset_fetch, log_saturated, truncate, writes_json, Level, LogFormat,
    LogLine,
};
use underclass::models::{
    new_id, now_ms, Account, AccountStatus, BackendId, Binding, ModelInfo, RequestLogEntry,
};
use underclass::monitor::{collect, month_start_ms, session_count, totals, Counters};
use underclass::pool::{Decision, PoolCore};
use underclass::proxy::RequestLog;
use underclass::resets::{ResetManager, UsageResponse};
use underclass::startup::{
    adopts_catalog, bind_address, catalog_sources, choose_key, is_generic_label,
    may_replace_socket, mint_proxy_key, mint_ui_token, relabelled, seeds_catalog,
    unnamed_accounts,
};
use underclass::store::{
    bins_start, migration, minute, minute_bins, parse_status, schema, status_str, stored_backend,
    SqlValue, UsageQuery, UsageSummary,
};
use underclass::ui::{
    account_view, admitted, disable_account, enable_account, put_catalog, start_flow,
    totals_query, usage_query, CatalogBody, StartFlowBody,
};

#[test]
fn truncates_ids_but_not_labels() {
    assert_eq!(truncate("abcdefghij"), "abcdefgh");
    assert_eq!(truncate("abc"), "abc");
}

fn fields(line: &LogLine) -> Vec<(&str, &str)> {
    line.fields.iter().map(|(k, v)| (k.as_str(), v.as_str())).collect()
}

#[test]
fn log_lines() {
    let line = log_request_selected("r", "m", Decision::StickyHit, "codex", "123456789", None);
    assert_eq!(line.event, "request.selected");
    assert_eq!(line.level, Level::Info);
    assert_eq!(
        fields(&line),
        vec![
            ("request_id", "r"),
            ("model", "m"),
            ("decision", "StickyHit"),
            ("backend", "codex"),
            ("account", "unknown"),
            ("account_id", "12345678"),
        ]
    );
    let line = log_request_completed("r", 200, 7);
    assert_eq!(fields(&line), vec![("request_id", "r"), ("status", "200"), ("duration_ms", "7")]);
    let line = log_account_state("id", Some("l"), "cooling", "until 5");
    assert_eq!(line.event, "account.cooling");
    assert_eq!(fields(&line), vec![("account", "l"), ("account_id", "id"), ("detail", "until 5")]);
    let line = log_saturated("r", -4);
    assert_eq!((line.level, line.event.as_str()), (Level::Warn, "request.saturated"));
    assert_eq!(fields(&line), vec![("request_id", "r"), ("retry_after_ms", "-4")]);
    let line = log_reset_decision("r", "why", 3, Some(9));
    assert_eq!(fields(&line)[2..], [("cooling_accounts", "3"), ("selected_wait_ms", "9")]);
    assert_eq!(log_reset_decision("r", "why", 3, None).fields.len(), 3);
    let line = log_reset_account("r", "a", "l", "redeemed", 5);
    assert_eq!(fields(&line)[3..], [("outcome", "redeemed"), ("natural_wait_ms", "5")]);
    let line = log_reset_fetch("a", "l", "network_error");
    assert_eq!((line.level, line.event.as_str()), (Level::Warn, "codex.reset.usage_unavailable"));
    assert!(writes_json(LogFormat::Json, true));
    assert!(!writes_json(LogFormat::Pretty, false));
    assert!(writes_json(LogFormat::Auto, false));
    assert!(!writes_json(LogFormat::Auto, true));
}

// -- models -----------------------------------------------------------------

#[test]
fn identifiers_and_clock() {
    let id = new_id();
    assert_eq!(id.len(), 36);
    assert_eq!(id.as_bytes()[14], b'4');
    assert_ne!(id, new_id());
    assert!(now_ms() > 1_600_000_000_000);
    for b in BackendId::all() {
        assert_eq!(BackendId::parse(b.as_str()), Some(b));
    }
    assert_eq!(BackendId::parse("Codex"), None);
}

#[test]
fn flows_are_registered_and_followed() {
    let mut flows = FlowRegistry::new();
    let pending = FlowState::Pending { user_code: "c".into(), verify_url: "u".into() };
    let id = flows.create(BackendId::Codex, pending, Some("old".into()));
    assert!(flows.get("other").is_none());
    flows.set_state("other", FlowState::Failed { message: "x".into() });
    assert!(flows.get("other").is_none());
    flows.set_state(&id, FlowState::Authorized { account_id: "a".into() });
    let flow = flows.get(&id).unwrap();
    assert!(matches!(flow.state, FlowState::Authorized { .. }));
    assert_eq!(flow.replace_account.as_deref(), Some("old"));
    let a = new_account(BackendId::Copilot, "l".into());
    assert!(a.healthy() && a.created_at == a.updated_at);
}

#[test]
fn documents_round_trip() {
    let text = br#"{"a":[null,true,-1,2.5,"x\n"],"b":{}}"#;
    let doc = parse_json(text).unwrap();
    assert_eq!(json_bytes(&doc), text.to_vec());
    assert_eq!(json_bytes(&doc.copy()), text.to_vec());
    assert_eq!(doc.get("a").unwrap().as_array().unwrap()[2].as_i64(), Some(-1));
    assert_eq!(doc.get("a").unwrap().as_array().unwrap()[3].as_i64(), None);
    assert!(doc.get("c").is_none());
    assert!(parse_json(b"{").is_err());
    assert!(parse_json(b"{\"x\":1} 2").unwrap_err().contains("trailing"));
    let twice = parse_json(br#"{"k":1,"k":2}"#).unwrap();
    assert_eq!(twice.get("k").unwrap().as_i64(), Some(2));
}

#[test]
fn header_text() {
    assert!(fits_header("a\tb é"));
    assert!(!fits_header("a\nb"));
    assert!(!fits_header("\u{7f}"));
}

// -- configuration ----------------------------------------------------------

fn env() -> EnvConfig {
    EnvConfig {
        home: Some(b"/home/u".to_vec()),
        config_dir: None,
        data_dir: None,
        bind: None,
        proxy_key: None,
        ui_token: None,
        auto_codex_resets: None,
    }
}

#[test]
fn configuration_defaults() {
    let c = Config::load(&env(), &FileConfig::default());
    assert_eq!(c.bind, "127.0.0.1:8080");
    assert_eq!((c.codex_cooldown_ms, c.copilot_cooldown_ms), (1_800_000, 1_800_000));
    assert!(c.auto_codex_resets);
    assert_eq!(c.data_dir, b"/home/u/.local/share/underclass".to_vec());
    assert_eq!(c.config_dir, b"/home/u/.config/underclass".to_vec());
    assert_eq!(c.db_path(), b"/home/u/.local/share/underclass/pool.db".to_vec());
    assert_eq!(
        c.monitor_socket_path(None),
        b"/home/u/.local/share/underclass/monitor.sock".to_vec()
    );
    assert_eq!(c.monitor_socket_path(Some(b"")), c.monitor_socket_path(None));
    assert_eq!(c.monitor_socket_path(Some(b"/run/x")), b"/run/x".to_vec());
    assert_eq!(default_data_dir(&None), b"/.local/share/underclass".to_vec());
    assert_eq!(default_config_dir(&Some(b"/h/".to_vec())), b"/h/.config/underclass".to_vec());
    assert_eq!(env().config_path(), b"/home/u/.config/underclass/config.toml".to_vec());
}

#[test]
fn configuration_sources() {
    let mut e = env();
    e.bind = Some("1.2.3.4:5".into());
    e.auto_codex_resets = Some("false".into());
    e.data_dir = Some(b"/d".to_vec());
    let f = FileConfig {
        bind: Some("file".into()),
        proxy_key: Some("key".into()),
        codex_cooldown_secs: Some(7),
        copilot_cooldown_secs: Some(7),
        copilot_cooldown_ms: Some(9),
        auto_codex_resets: Some(true),
        ..FileConfig::default()
    };
    assert!(f.check());
    let c = Config::load(&e, &f);
    assert_eq!(c.bind, "1.2.3.4:5");
    assert_eq!(c.proxy_key.as_deref(), Some("key"));
    assert_eq!((c.codex_cooldown_ms, c.copilot_cooldown_ms), (7_000, 9));
    assert!(!c.auto_codex_resets);
    assert_eq!(c.db_path(), b"/d/pool.db".to_vec());
    e.auto_codex_resets = Some("yes".into());
    assert!(Config::load(&e, &f).auto_codex_resets);
    let large = FileConfig { codex_cooldown_secs: Some(u64::MAX), ..FileConfig::default() };
    assert!(!large.check());
}

// -- startup ----------------------------------------------------------------

fn account(id: &str, label: &str, backend: BackendId) -> Account {
    let mut a = new_account(backend, label.into());
    a.id = id.into();
    a.refresh_token = Some("r".into());
    a
}

#[test]
fn keys_are_minted_once() {
    let minted = choose_key(Some(""), None, "fresh".into());
    assert!(minted.mint);
    assert_eq!(minted.key, "fresh");
    let again = choose_key(None, Some(&minted.key), "other".into());
    assert_eq!((again.key.as_str(), again.mint), ("fresh", false));
    let configured = choose_key(Some("own"), Some("fresh"), "other".into());
    assert_eq!((configured.key.as_str(), configured.mint), ("own", false));
    assert_eq!(mint_ui_token().len(), 32);
    let key = mint_proxy_key();
    assert!(key.starts_with("sk-underclass-"));
    assert_eq!(key.len(), 46);
    assert!(!key["sk-underclass-".len()..].contains('-'));
    assert_eq!(bind_address(Some("a"), "b"), "a");
    assert_eq!(bind_address(None, "b"), "b");
}

#[test]
fn generic_labels_are_looked_up() {
    assert!(is_generic_label("chatgpt") && is_generic_label("github") && is_generic_label(" \t"));
    assert!(!is_generic_label("Chatgpt"));
    let list = vec![
        account("a", "chatgpt", BackendId::Codex),
        account("b", "me", BackendId::Copilot),
        account("c", "", BackendId::Copilot),
    ];
    let ids: Vec<String> = unnamed_accounts(&list).into_iter().map(|a| a.id).collect();
    assert_eq!(ids, vec!["a".to_string(), "c".to_string()]);
    let named = relabelled(&list[0], "me@x".into(), 5);
    assert_eq!((named.label.as_str(), named.updated_at, named.id.as_str()), ("me@x", 5, "a"));
    let mut without = account("d", "x", BackendId::Copilot);
    without.refresh_token = None;
    let mut all = list;
    all.push(without);
    let ids: Vec<String> = catalog_sources(&all).into_iter().map(|a| a.id).collect();
    assert_eq!(ids, vec!["b".to_string(), "c".to_string()]);
    assert!(seeds_catalog(&Vec::new()) && !adopts_catalog(&Vec::new()));
    assert!(may_replace_socket(true, true));
    assert!(!may_replace_socket(true, false) && !may_replace_socket(false, true));
}

// -- store ------------------------------------------------------------------

#[test]
fn statuses_are_stored_as_text() {
    for s in [
        AccountStatus::Healthy,
        AccountStatus::Cooling,
        AccountStatus::AuthError,
        AccountStatus::Disabled,
    ] {
        assert_eq!(parse_status(status_str(s)), s);
    }
    assert_eq!(parse_status("?"), AccountStatus::Healthy);
    assert_eq!(stored_backend("copilot"), BackendId::Copilot);
    assert_eq!(stored_backend("?"), BackendId::Codex);
}

#[test]
fn conditions_follow_the_query() {
    let q = UsageQuery {
        from_ms: Some(1),
        cache_key: Some("k".into()),
        missing_key: Some(true),
        ..UsageQuery::default()
    };
    let (sql, values) = q.where_sql();
    assert_eq!(sql, "1=1 AND ts >= ? AND cache_key = ? AND cache_key IS NULL");
    assert!(matches!(&values[..], [SqlValue::Integer(1), SqlValue::Text(t)] if t == "k"));
    let (sql, values) = UsageQuery::default().where_sql();
    assert_eq!((sql.as_str(), values.len()), ("1=1", 0));
}

#[test]
fn summaries_are_grouped_and_paged() {
    let (sql, values) = UsageQuery::default().summary_sql();
    assert_eq!(
        sql,
        "SELECT NULL AS model,NULL AS account_id,NULL AS account_label,NULL AS cache_key,COUNT(*),COALESCE(SUM(CASE WHEN input_tokens IS NOT NULL AND output_tokens IS NOT NULL THEN 1 ELSE 0 END),0),COALESCE(SUM(CASE WHEN input_tokens IS NULL OR output_tokens IS NULL THEN 1 ELSE 0 END),0),COALESCE(SUM(input_tokens),0) AS input_tokens,COALESCE(SUM(output_tokens),0) AS output_tokens FROM usage_records WHERE 1=1 ORDER BY input_tokens DESC,model,account_id,cache_key"
    );
    assert!(values.is_empty());
    let q = UsageQuery {
        group_by: Some("cache_key,,account_id".into()),
        limit: Some(5_000),
        offset: Some(3),
        ..UsageQuery::default()
    };
    let (sql, values) = q.summary_sql();
    assert!(sql.starts_with("SELECT NULL AS model,account_id,MAX(account_label) AS account_label,cache_key,COUNT(*)"));
    assert!(sql.ends_with(" GROUP BY account_id,cache_key ORDER BY input_tokens DESC,model,account_id,cache_key LIMIT ? OFFSET ?"));
    assert!(matches!(&values[..], [SqlValue::Integer(1_000), SqlValue::Integer(3)]));
    let (sql, values) = UsageQuery { limit: Some(0), ..UsageQuery::default() }.records_sql();
    assert!(sql.ends_with(" WHERE 1=1 ORDER BY ts DESC,id DESC LIMIT ? OFFSET ?"));
    assert!(matches!(&values[..], [SqlValue::Integer(1), SqlValue::Integer(0)]));
}

#[test]
fn minutes_are_counted() {
    assert_eq!((minute(59_999), minute(60_000), minute(-1)), (0, 1, -1));
    assert_eq!(bins_start(120_000), Some(-57 * 60_000));
    assert_eq!(bins_start(i64::MIN), None);
    let bins = minute_bins(&vec![(0, 1), (1, 2), (2, 1), (-58, 9), (3, 9)], 120_000);
    assert_eq!(bins.len(), 60);
    assert_eq!(bins[57..], [1, 2, 1]);
    assert_eq!(bins.iter().sum::<i64>(), 4);
}

#[test]
fn tables_and_migration() {
    assert!(schema().contains("CREATE TABLE IF NOT EXISTS usage_records"));
    assert!(migration(&vec!["id".into(), "token_refreshed_at".into()]).is_none());
    assert_eq!(
        migration(&vec!["id".into()]).unwrap(),
        "ALTER TABLE accounts ADD COLUMN token_refreshed_at INTEGER NOT NULL DEFAULT 0"
    );
}

// -- monitor ----------------------------------------------------------------

fn summary(id: Option<&str>, requests: i64, unknown: i64, input: i64, output: i64) -> UsageSummary {
    UsageSummary {
        model: None,
        account_id: id.map(str::to_string),
        account_label: None,
        cache_key: None,
        requests,
        measured_requests: requests - unknown,
        unknown_requests: unknown,
        input_tokens: input,
        output_tokens: output,
    }
}

#[test]
fn months_begin_at_midnight() {
    assert_eq!(month_start_ms(0), 0);
    assert_eq!(month_start_ms(2_678_400_000 - 1), 0);
    assert_eq!(month_start_ms(2_678_400_000), 2_678_400_000);
    assert_eq!(month_start_ms(1_709_208_000_000), 1_706_745_600_000);
}

#[test]
fn monitor_shows_the_pool() {
    let mut pool = PoolCore::new(
        vec![
            account("2", "bob", BackendId::Codex),
            account("1", "bob", BackendId::Copilot),
            account("3", "alice", BackendId::Codex),
        ],
        Vec::new(),
        &Vec::new(),
        &Vec::new(),
    );
    pool.select(0, Some("k"), "unknown").unwrap();
    pool.select(0, Some("l"), "unknown").unwrap();
    pool.acquire("3");
    let mut resets = ResetManager::new("http://h", true);
    let report = UsageResponse { account_id: None, rate_limit: None, available_count: Some(4) };
    resets.take_usage(&account("2", "bob", BackendId::Codex), report, 11);
    let mut log = RequestLog::new();
    for i in 0..25u16 {
        log.push(RequestLogEntry {
            ts: i as i64,
            request_id: "r".into(),
            model: "m".into(),
            backend: None,
            account: Some("secret".into()),
            label: Some("l".into()),
            sticky: "key".into(),
            status: i,
            duration_ms: 2,
        });
    }
    let rows = vec![summary(Some("2"), 5, 1, 10, 20), summary(Some("gone"), 2, 2, 0, 0)];
    let s = collect(
        9,
        1,
        &rows,
        &vec![summary(None, 3, 0, 1, 2)],
        vec![0; 60],
        &pool,
        &resets,
        &log,
    )
    .unwrap();
    let seen: Vec<(&str, &str)> =
        s.accounts.iter().map(|a| (a.label.as_str(), a.id.as_str())).collect();
    assert_eq!(seen, vec![("alice", "3"), ("bob", "1"), ("bob", "2")]);
    assert_eq!(s.accounts[0].inflight, 1);
    assert_eq!(s.accounts[0].month, Counters::default());
    assert_eq!(s.accounts[2].sticky_sessions, 2);
    assert_eq!(s.accounts[2].month.attempts, 5);
    assert_eq!(s.accounts[2].quota.as_ref().unwrap().available_resets, 4);
    assert!(s.accounts[1].quota.is_none());
    assert_eq!((s.month.attempts, s.month.unknown, s.month.input_tokens), (7, 3, 10));
    assert_eq!(s.last_minute.attempts, 3);
    assert_eq!(s.recent.len(), 20);
    assert_eq!((s.recent[0].ts, s.recent[19].ts), (24, 5));
}

#[test]
fn totals_add_up() {
    let a = vec![summary(None, 1, 0, 5, 6), summary(None, 2, 1, 7, 8)];
    assert_eq!(
        totals(&a),
        Some(Counters { attempts: 3, unknown: 1, input_tokens: 12, output_tokens: 14 })
    );
    assert_eq!(totals(&vec![summary(None, i64::MAX, 0, 0, 0), summary(None, 1, 0, 0, 0)]), None);
    let b = vec![Binding {
        cache_key: "k".into(),
        account_id: "a".into(),
        backend: BackendId::Codex,
        bound_at: 0,
    }];
    assert_eq!((session_count(&b, "a"), session_count(&b, "b")), (1, 0));
}

// -- admin interface --------------------------------------------------------

#[test]
fn admin_gate() {
    assert!(admitted("t", Some("Bearer t")));
    assert!(!admitted("t", Some("t")));
    assert!(!admitted("t", None));
    assert!(!admitted("t", Some("Bearer tt")));
    assert!(!admitted("", None));
    assert!(!admitted("", Some("Basic x")));
    assert!(admitted("", Some("Bearer ")));
}

#[test]
fn usage_queries_are_checked() {
    let q = usage_query(UsageQuery::default(), 77).unwrap();
    assert_eq!(q.from_ms, Some(77));
    let q = usage_query(UsageQuery { to_ms: Some(5), ..UsageQuery::default() }, 77).unwrap();
    assert_eq!(q.from_ms, None);
    let backwards = UsageQuery { from_ms: Some(5), to_ms: Some(5), ..UsageQuery::default() };
    assert_eq!(usage_query(backwards, 0).unwrap_err(), "from_ms must precede to_ms");
    let unknown = UsageQuery { group_by: Some("model,status".into()), ..UsageQuery::default() };
    assert_eq!(usage_query(unknown, 0).unwrap_err(), "invalid group_by");
    let both = UsageQuery {
        cache_key: Some("k".into()),
        missing_key: Some(true),
        ..UsageQuery::default()
    };
    assert_eq!(usage_query(both, 0).unwrap_err(), "cache_key conflicts with missing_key");
    let fine = UsageQuery { group_by: Some("model,,cache_key".into()), ..UsageQuery::default() };
    let fine = usage_query(fine, 0).unwrap();
    assert!(totals_query(&fine).group_by.is_none());
}

#[test]
fn enabling_recovers_but_keeps_quota() {
    let mut a = account("a", "l", BackendId::Codex);
    let mut pool =
        PoolCore::new(vec![a.clone()], Vec::new(), &Vec::new(), &Vec::new());
    assert_eq!(disable_account(&mut pool, true, "a"), 204);
    assert_eq!(pool.account("a").unwrap().status, AccountStatus::Disabled);
    assert_eq!(disable_account(&mut pool, false, "a"), 404);
    for status in [AccountStatus::Disabled, AccountStatus::AuthError, AccountStatus::Healthy] {
        a.status = status;
        a.reset_at = 99;
        assert_eq!(enable_account(&mut pool, Some(&a)), Some((AccountStatus::Healthy, 0)));
    }
    a.status = AccountStatus::Cooling;
    assert_eq!(enable_account(&mut pool, Some(&a)), Some((AccountStatus::Cooling, 99)));
    assert_eq!(pool.account("a").unwrap().reset_at, 99);
    assert_eq!(enable_account(&mut pool, None), None);
    pool.acquire("a");
    let load = account_view(&pool, &a, 90);
    assert_eq!((load.cooling_remaining_ms, load.inflight, load.sticky_sessions), (9, 1, 0));
    assert_eq!(account_view(&pool, &a, 100).cooling_remaining_ms, 0);
}

#[test]
fn sign_ins_and_catalogs() {
    assert_eq!(start_flow(None).unwrap_err(), "missing body");
    let body = |b: &str| StartFlowBody { backend: b.into(), enterprise_url: None };
    assert_eq!(start_flow(Some(&body("x"))).unwrap_err(), "unknown backend");
    assert_eq!(start_flow(Some(&body("copilot"))).unwrap(), BackendId::Copilot);
    let mut pool = PoolCore::new(Vec::new(), Vec::new(), &Vec::new(), &Vec::new());
    let model = ModelInfo { id: "m".into(), name: "M".into(), context: 1, input: 1, output: 1 };
    let catalog = CatalogBody { models: vec![model] };
    assert_eq!(put_catalog(&mut pool, "codex", &catalog), Some(BackendId::Codex));
    assert!(pool.serves(BackendId::Codex, "m"));
    assert_eq!(put_catalog(&mut pool, "nope", &catalog), None);
}
