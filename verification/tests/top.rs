use underclass::models::{AccountStatus, BackendId};
use underclass::monitor::{Counters, MonitorAccount};
use underclass::resets::{RateLimit, UsageSnapshot, Window};
use underclass::top::{
    account_detail, admin_token, bar, check_url, credits, display_text, healthy_accounts,
    live_requests, outcome_color, quota, quota_color, server_url, source, status_color,
    status_text, text_or_dash, time_of_day, time_until, Cursor, PercentText, QuotaText, Source,
    FIRST_INSTANT_MS, LAST_INSTANT_MS,
    Tone,
};

fn window(used_percent: i64, secs: Option<i64>) -> Window {
    Window { used_percent, reset_at: None, limit_window_seconds: secs }
}

fn account() -> MonitorAccount {
    MonitorAccount {
        id: "a".into(),
        label: "alice".into(),
        backend: BackendId::Codex,
        status: AccountStatus::Healthy,
        reset_at: 0,
        inflight: 0,
        sticky_sessions: 0,
        month: Counters::default(),
        quota: Some(UsageSnapshot {
            rate_limit: Some(RateLimit {
                allowed: Some(true),
                limit_reached: Some(false),
                primary_window: Some(window(20, None)),
                secondary_window: Some(window(75, None)),
            }),
            available_resets: 0,
            credit_expirations: vec![],
            fetched_at_ms: 1_000,
        }),
    }
}

fn limit(a: &mut MonitorAccount) -> &mut RateLimit {
    a.quota.as_mut().unwrap().rate_limit.as_mut().unwrap()
}

#[test]
fn quota_palette_tracks_lowest_window_and_staleness() {
    let mut account = account();
    assert_eq!(quota_color(&account, 1_000), Tone::Yellow);
    limit(&mut account).secondary_window.as_mut().unwrap().used_percent = 95;
    assert_eq!(quota_color(&account, 1_000), Tone::Red);
    assert_eq!(quota_color(&account, 181_001), Tone::Muted);
    account.backend = BackendId::Copilot;
    assert_eq!(quota_color(&account, 1_000), Tone::Muted);
}

#[test]
fn control_characters_are_removed_from_display() {
    assert_eq!(display_text("alice\x1b[31m\n"), "alice [31m ");
}

#[test]
fn quota_palette_edges() {
    let mut a = account();
    limit(&mut a).secondary_window = None;
    for (used, tone) in [(69, Tone::Green), (70, Tone::Yellow), (89, Tone::Yellow), (90, Tone::Red)] {
        limit(&mut a).primary_window = Some(window(used, None));
        assert_eq!(quota_color(&a, 1_000), tone);
    }
    limit(&mut a).primary_window = None;
    assert_eq!(quota_color(&a, 1_000), Tone::Muted);
    limit(&mut a).limit_reached = Some(true);
    assert_eq!(quota_color(&a, 1_000), Tone::Red);
    assert_eq!(quota_color(&a, 181_000), Tone::Red);
    a.quota = None;
    assert_eq!(quota_color(&a, 1_000), Tone::Muted);
}

fn percent(used: &str, left: &str) -> Option<PercentText> {
    Some(PercentText { used: used.into(), left: left.into() })
}

#[test]
fn quota_in_words() {
    let mut a = account();
    let texts = QuotaText { primary: percent("20", "80"), secondary: percent("75", "25") };
    limit(&mut a).primary_window = Some(window(20, Some(18_000)));
    limit(&mut a).secondary_window = Some(window(75, Some(604_800)));
    assert_eq!(quota(&a, &texts, 1_000), "5h 80% · 7d 25%");
    assert_eq!(quota(&a, &texts, 181_001), "5h 80% · 7d 25% · stale");
    limit(&mut a).primary_window = Some(window(20, None));
    limit(&mut a).secondary_window = None;
    assert_eq!(quota(&a, &texts, 1_000), "? 80%");
    limit(&mut a).primary_window = None;
    assert_eq!(quota(&a, &texts, 1_000), "unavailable");
    a.quota.as_mut().unwrap().rate_limit = None;
    assert_eq!(quota(&a, &texts, 1_000), "unavailable");
    a.quota = None;
    assert_eq!(quota(&a, &texts, 1_000), "waiting…");
    assert_eq!(credits(&a), "—");
    a.backend = BackendId::Copilot;
    assert_eq!(quota(&a, &texts, 1_000), "unknown");
}

#[test]
fn details_in_words() {
    let mut a = account();
    a.month = Counters { attempts: 12, unknown: 3, input_tokens: 0, output_tokens: 0 };
    let texts = QuotaText { primary: percent("20", "80"), secondary: percent("75", "25") };
    limit(&mut a).primary_window =
        Some(Window { used_percent: 20, reset_at: Some(70), limit_window_seconds: None });
    assert_eq!(
        account_detail(&a, &texts, 10_000),
        "alice: 12 month attempts · 3 unknown  ·  quota checked 9s ago  ·  primary 20% used / 80% left · renews in 1m  ·  secondary 75% used / 25% left · reset unknown"
    );
    assert_eq!(credits(&a), "0");
    a.quota = None;
    assert_eq!(account_detail(&a, &texts, 10_000), "alice: 12 month attempts · 3 unknown");
}

#[test]
fn spans_in_words() {
    assert_eq!(time_until(59_999, 0), "59s");
    assert_eq!(time_until(60_000, 0), "1m");
    assert_eq!(time_until(7_325_000, 0), "2h2m");
    assert_eq!(time_until(0, 5), "0s");
    let mut a = account();
    assert_eq!(status_text(&a, 0), "healthy");
    a.status = AccountStatus::Cooling;
    a.reset_at = 3_600_000;
    assert_eq!(status_text(&a, 0), "cooling 1h0m");
    a.status = AccountStatus::AuthError;
    assert_eq!(status_text(&a, 0), "auth error");
    a.status = AccountStatus::Disabled;
    assert_eq!(status_text(&a, 0), "disabled");
}

#[test]
fn time_of_day_in_words() {
    assert_eq!(time_of_day(0), "00:00:00");
    assert_eq!(time_of_day(86_399_000 + 86_400_000), "23:59:59");
    assert_eq!(time_of_day(-1_000), "23:59:59");
    assert_eq!(time_of_day(3_723_999), "01:02:03");
    assert_eq!(time_of_day(-1), "23:59:59");
    assert_eq!(time_of_day(i64::MAX), "?");
    assert_eq!(time_of_day(FIRST_INSTANT_MS), "00:00:00");
    assert_eq!(time_of_day(FIRST_INSTANT_MS - 1), "?");
    assert_eq!(time_of_day(LAST_INSTANT_MS), "23:59:59");
    assert_eq!(time_of_day(LAST_INSTANT_MS + 1), "?");
    assert_eq!(text_or_dash(None), "—");
    assert_eq!(text_or_dash(Some("codex")), "codex");
}

#[test]
fn tones() {
    assert_eq!(status_color(AccountStatus::Healthy), Tone::Green);
    assert_eq!(status_color(AccountStatus::Cooling), Tone::Yellow);
    assert_eq!(status_color(AccountStatus::AuthError), Tone::Red);
    assert_eq!(status_color(AccountStatus::Disabled), Tone::Muted);
    assert_eq!(outcome_color(399), Tone::Green);
    assert_eq!(outcome_color(400), Tone::Yellow);
    assert_eq!(outcome_color(500), Tone::Red);
}

#[test]
fn cursor_stays_on_rows() {
    let mut c = Cursor { selected: 0 };
    c.down(3);
    c.down(3);
    c.down(3);
    assert_eq!(c.selected, 2);
    c.page(-10, 3);
    assert_eq!(c.selected, 0);
    c.page(10, 25);
    assert_eq!(c.selected, 10);
    c.up();
    assert_eq!(c.selected, 9);
    c.end(25);
    assert_eq!(c.selected, 24);
    c.keep_within(4);
    assert_eq!(c.selected, 3);
    c.home();
    c.up();
    c.down(0);
    assert_eq!(c.selected, 0);
}

#[test]
fn totals_of_the_dashboard() {
    let mut busy = account();
    busy.inflight = u32::MAX;
    let mut cooling = account();
    cooling.inflight = 2;
    cooling.status = AccountStatus::Cooling;
    let list = vec![busy, cooling];
    assert_eq!(live_requests(&list), u32::MAX as u128 + 2);
    assert_eq!(healthy_accounts(&list), 1);
    assert_eq!((bar(-3), bar(4)), (0, 4));
}

#[test]
fn server_addresses() {
    assert_eq!(server_url(None, "0.0.0.0:8080"), "http://127.0.0.1:8080");
    assert_eq!(server_url(None, "[::]:8080"), "http://[::1]:8080");
    assert_eq!(server_url(Some("https://h///"), "x"), "https://h");
    assert!(check_url("http://127.0.0.1:8080").is_ok());
    assert!(check_url("https://host/").is_ok());
    assert_eq!(check_url("nonsense").unwrap_err(), "invalid server URL");
    for bad in [
        "ftp://h",
        "http://u@h",
        "http://u:p@h",
        "http://h/path",
        "http://h?q=1",
        "http://h#f",
    ] {
        assert_eq!(
            check_url(bad).unwrap_err(),
            "server URL must be an HTTP(S) origin without credentials, path, or query"
        );
    }
}

#[test]
fn admin_tokens() {
    assert_eq!(admin_token(true, Some("e"), Some("c"), Some("s")).unwrap(), "e");
    assert!(admin_token(true, Some(""), Some("c"), Some("s")).is_err());
    assert_eq!(admin_token(false, Some("e"), Some("c"), Some("s")).unwrap(), "c");
    assert_eq!(admin_token(false, None, Some(""), Some("s")).unwrap(), "s");
    assert_eq!(
        admin_token(false, None, None, None).unwrap_err(),
        "admin token unavailable; start underclass serve or set UNDERCLASS_UI_TOKEN"
    );
}

#[test]
fn sources_of_the_dashboard() {
    assert_eq!(source(true, true, true), Source::Server);
    assert_eq!(source(false, true, true), Source::LocalSocket);
    assert_eq!(source(false, false, true), Source::SystemSocket);
    assert_eq!(source(false, false, false), Source::Server);
}
