//! The lines of the operational log.
use crate::pool::Decision;
use crate::text::{dec, dec_i64, dec_u64, dec_usize, join2};
use vstd::prelude::*;
use vstd::string::*;
use vstd::utf8::{encode_utf8, is_char_boundary};

verus! {

/// How the log is written.
#[derive(Clone, Copy, Debug, PartialEq, Eq, Structural)]
pub enum LogFormat {
    Auto,
    Json,
    Pretty,
}

/// Whether the log is written as JSON: where that is asked, or the output is no
/// terminal and nothing is asked.
pub fn writes_json(format: LogFormat, terminal: bool) -> (r: bool)
    ensures
        r == (format == LogFormat::Json || (format == LogFormat::Auto && !terminal)),
{
    match format {
        LogFormat::Json => true,
        LogFormat::Pretty => false,
        LogFormat::Auto => !terminal,
    }
}

/// An id can be cut: it is short, or its ninth byte begins a character.
pub open spec fn can_cut(id: Seq<char>) -> bool {
    encode_utf8(id).len() <= 8 || is_char_boundary(encode_utf8(id), 8)
}

/// The text is the id, cut to its first eight bytes.
pub open spec fn is_cut(r: Seq<char>, id: Seq<char>) -> bool {
    if encode_utf8(id).len() <= 8 {
        r == id
    } else {
        encode_utf8(r) == encode_utf8(id).take(8)
    }
}

/// The first eight bytes of an id.
pub fn truncate(id: &str) -> (r: String)
    requires
        can_cut(id@),
    ensures
        is_cut(r@, id@),
{
    let bytes = id.as_bytes();
    if bytes.len() <= 8 {
        id.to_owned()
    } else {
        let (head, _rest) = id.split_at(8);
        assert(encode_utf8(head@) =~= encode_utf8(id@).take(8));
        head.to_owned()
    }
}

/// How serious a line is.
#[derive(Clone, Copy, Debug, PartialEq, Eq, Structural)]
pub enum Level {
    Info,
    Warn,
}

/// A line of the log.
#[derive(Debug)]
pub struct LogLine {
    pub level: Level,
    pub event: String,
    pub fields: Vec<(String, String)>,
}

/// The fields of a line, as sequences.
pub open spec fn field_views(s: Seq<(String, String)>) -> Seq<(Seq<char>, Seq<char>)> {
    s.map_values(|f: (String, String)| (f.0@, f.1@))
}

fn put(fields: &mut Vec<(String, String)>, name: &str, value: &str)
    ensures
        field_views(final(fields)@) == field_views(old(fields)@).push((name@, value@)),
{
    fields.push((name.to_owned(), value.to_owned()));
    assert(field_views(fields@) =~= field_views(old(fields)@).push((name@, value@)));
}

/// The label of an account, as it is shown.
pub open spec fn shown_label(label: Option<&str>) -> Seq<char> {
    match label {
        Some(l) => l@,
        None => "unknown"@,
    }
}

fn label_or_unknown<'a>(label: Option<&'a str>) -> (r: &'a str)
    ensures
        r@ == shown_label(label),
{
    match label {
        Some(l) => l,
        None => "unknown",
    }
}

/// The name of a decision.
pub open spec fn decision_name(d: Decision) -> Seq<char> {
    match d {
        Decision::StickyHit => "StickyHit"@,
        Decision::StickyRebind => "StickyRebind"@,
        Decision::NewBinding => "NewBinding"@,
        Decision::Unsticky => "Unsticky"@,
    }
}

fn decision_text(d: Decision) -> (r: &'static str)
    ensures
        r@ == decision_name(d),
{
    match d {
        Decision::StickyHit => "StickyHit",
        Decision::StickyRebind => "StickyRebind",
        Decision::NewBinding => "NewBinding",
        Decision::Unsticky => "Unsticky",
    }
}

/// An account was selected for a request.
pub fn log_request_selected(
    request_id: &str,
    model: &str,
    decision: Decision,
    backend: &str,
    account_id: &str,
    label: Option<&str>,
) -> (r: LogLine)
    requires
        can_cut(account_id@),
    ensures
        r.level == Level::Info,
        r.event@ == "request.selected"@,
        field_views(r.fields@).len() == 6,
        field_views(r.fields@).take(5) == seq![
            ("request_id"@, request_id@),
            ("model"@, model@),
            ("decision"@, decision_name(decision)),
            ("backend"@, backend@),
            ("account"@, shown_label(label)),
        ],
        field_views(r.fields@)[5].0 == "account_id"@,
        is_cut(field_views(r.fields@)[5].1, account_id@),
{
    let mut fields: Vec<(String, String)> = Vec::new();
    put(&mut fields, "request_id", request_id);
    put(&mut fields, "model", model);
    put(&mut fields, "decision", decision_text(decision));
    put(&mut fields, "backend", backend);
    put(&mut fields, "account", label_or_unknown(label));
    let cut = truncate(account_id);
    put(&mut fields, "account_id", cut.as_str());
    assert(field_views(fields@).take(5) =~= seq![
        ("request_id"@, request_id@),
        ("model"@, model@),
        ("decision"@, decision_name(decision)),
        ("backend"@, backend@),
        ("account"@, shown_label(label)),
    ]);
    LogLine { level: Level::Info, event: "request.selected".to_owned(), fields }
}

/// A request was answered.
pub fn log_request_completed(request_id: &str, status: u16, duration_ms: u64) -> (r: LogLine)
    ensures
        r.level == Level::Info,
        r.event@ == "request.completed"@,
        field_views(r.fields@) == seq![
            ("request_id"@, request_id@),
            ("status"@, dec(status as int)),
            ("duration_ms"@, dec(duration_ms as int)),
        ],
{
    let mut fields: Vec<(String, String)> = Vec::new();
    put(&mut fields, "request_id", request_id);
    put(&mut fields, "status", dec_u64(status as u64).as_str());
    put(&mut fields, "duration_ms", dec_u64(duration_ms).as_str());
    assert(field_views(fields@) =~= seq![
        ("request_id"@, request_id@),
        ("status"@, dec(status as int)),
        ("duration_ms"@, dec(duration_ms as int)),
    ]);
    LogLine { level: Level::Info, event: "request.completed".to_owned(), fields }
}

/// The state of an account changed.
pub fn log_account_state(account_id: &str, label: Option<&str>, event: &str, detail: &str) -> (r:
    LogLine)
    requires
        can_cut(account_id@),
    ensures
        r.level == Level::Info,
        r.event@ == "account."@ + event@,
        field_views(r.fields@).len() == 3,
        field_views(r.fields@)[0] == ("account"@, shown_label(label)),
        field_views(r.fields@)[1].0 == "account_id"@,
        is_cut(field_views(r.fields@)[1].1, account_id@),
        field_views(r.fields@)[2] == ("detail"@, detail@),
{
    let mut fields: Vec<(String, String)> = Vec::new();
    put(&mut fields, "account", label_or_unknown(label));
    let cut = truncate(account_id);
    put(&mut fields, "account_id", cut.as_str());
    put(&mut fields, "detail", detail);
    LogLine { level: Level::Info, event: join2("account.", event), fields }
}

/// The whole pool is out of quota.
pub fn log_saturated(request_id: &str, retry_after_ms: i64) -> (r: LogLine)
    ensures
        r.level == Level::Warn,
        r.event@ == "request.saturated"@,
        field_views(r.fields@) == seq![
            ("request_id"@, request_id@),
            ("retry_after_ms"@, dec(retry_after_ms as int)),
        ],
{
    let mut fields: Vec<(String, String)> = Vec::new();
    put(&mut fields, "request_id", request_id);
    put(&mut fields, "retry_after_ms", dec_i64(retry_after_ms).as_str());
    assert(field_views(fields@) =~= seq![
        ("request_id"@, request_id@),
        ("retry_after_ms"@, dec(retry_after_ms as int)),
    ]);
    LogLine { level: Level::Warn, event: "request.saturated".to_owned(), fields }
}

/// A reset was considered. The wait of the selected account is left out where
/// none was selected.
pub fn log_reset_decision(
    request_id: &str,
    reason: &str,
    cooling_accounts: usize,
    selected_wait_ms: Option<i64>,
) -> (r: LogLine)
    ensures
        r.level == Level::Info,
        r.event@ == "codex.reset.decision"@,
        field_views(r.fields@) == seq![
            ("request_id"@, request_id@),
            ("reason"@, reason@),
            ("cooling_accounts"@, dec(cooling_accounts as int)),
        ] + (match selected_wait_ms {
            Some(w) => seq![("selected_wait_ms"@, dec(w as int))],
            None => Seq::empty(),
        }),
{
    let mut fields: Vec<(String, String)> = Vec::new();
    put(&mut fields, "request_id", request_id);
    put(&mut fields, "reason", reason);
    put(&mut fields, "cooling_accounts", dec_usize(cooling_accounts).as_str());
    if let Some(w) = selected_wait_ms {
        put(&mut fields, "selected_wait_ms", dec_i64(w).as_str());
    }
    assert(field_views(fields@) =~= seq![
        ("request_id"@, request_id@),
        ("reason"@, reason@),
        ("cooling_accounts"@, dec(cooling_accounts as int)),
    ] + (match selected_wait_ms {
        Some(w) => seq![("selected_wait_ms"@, dec(w as int))],
        None => Seq::empty(),
    }));
    LogLine { level: Level::Info, event: "codex.reset.decision".to_owned(), fields }
}

/// A reset of an account came out in some way.
pub fn log_reset_account(
    request_id: &str,
    account_id: &str,
    label: &str,
    outcome: &str,
    natural_wait_ms: i64,
) -> (r: LogLine)
    requires
        can_cut(account_id@),
    ensures
        r.level == Level::Info,
        r.event@ == "codex.reset.account"@,
        field_views(r.fields@).len() == 5,
        field_views(r.fields@)[0] == ("request_id"@, request_id@),
        field_views(r.fields@)[1] == ("account"@, label@),
        field_views(r.fields@)[2].0 == "account_id"@,
        is_cut(field_views(r.fields@)[2].1, account_id@),
        field_views(r.fields@)[3] == ("outcome"@, outcome@),
        field_views(r.fields@)[4] == ("natural_wait_ms"@, dec(natural_wait_ms as int)),
{
    let mut fields: Vec<(String, String)> = Vec::new();
    put(&mut fields, "request_id", request_id);
    put(&mut fields, "account", label);
    let cut = truncate(account_id);
    put(&mut fields, "account_id", cut.as_str());
    put(&mut fields, "outcome", outcome);
    put(&mut fields, "natural_wait_ms", dec_i64(natural_wait_ms).as_str());
    LogLine { level: Level::Info, event: "codex.reset.account".to_owned(), fields }
}

/// The usage of an account could not be read.
pub fn log_reset_fetch(account_id: &str, label: &str, reason: &str) -> (r: LogLine)
    requires
        can_cut(account_id@),
    ensures
        r.level == Level::Warn,
        r.event@ == "codex.reset.usage_unavailable"@,
        field_views(r.fields@).len() == 3,
        field_views(r.fields@)[0] == ("account"@, label@),
        field_views(r.fields@)[1].0 == "account_id"@,
        is_cut(field_views(r.fields@)[1].1, account_id@),
        field_views(r.fields@)[2] == ("reason"@, reason@),
{
    let mut fields: Vec<(String, String)> = Vec::new();
    put(&mut fields, "account", label);
    let cut = truncate(account_id);
    put(&mut fields, "account_id", cut.as_str());
    put(&mut fields, "reason", reason);
    LogLine { level: Level::Warn, event: "codex.reset.usage_unavailable".to_owned(), fields }
}

} // verus!
