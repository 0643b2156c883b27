//! What the proxy decides between the client and the upstreams: which account a
//! request is tried on, what an answer leads to, and when to give up.
use crate::codex::{is_success, CodexBackend};
use crate::copilot::CopilotBackend;
use crate::headers::{empty_headers, fields, is_value_text, set_header, with_field};
use crate::health::{retry_deadline, RetryNumbers};
use crate::json::{
    document, json_bytes, json_text, parse_json, text_in, text_of, truth_in, truth_of, Json,
    JsonView,
};
use crate::models::{
    Account, AccountStatus, BackendId, Binding, ModelInfo, ModelView, Outcome, RequestLogEntry,
};
use crate::pool::{
    choice_view, is_fresh, lapsed, outcome_status, BindingView, Decision, PoolCore, PoolView,
    SelectError, Selection, SelectionView,
};
use crate::pool_laws::law_selection_repeats;
use crate::provider::{Backend, Fields};
use crate::sticky::lookup;
use crate::store::{RecordView, UsageRecord};
use crate::text::{
    below, contains, has_substring, is_below, join2, law_order_total, law_order_transitive,
    opt_str_view, opt_view, same, strip_prefix, strip_prefix_of,
};
use crate::usage::{reported_usage, usage_from_json, TokenCounts};
use http::HeaderMap;
use std::collections::VecDeque;
use vstd::prelude::*;
use vstd::utf8::encode_utf8;

verus! {

/// The largest body of a request.
pub const MAX_BODY_BYTES: usize = 67_108_864;

/// How many lines the request history keeps.
pub const LOG_BUFFER: usize = 200;

// ---------------------------------------------------------------------------
// Requests
// ---------------------------------------------------------------------------

/// The session that a request belongs to: the cache key of its body, under
/// either name, else the session header; none if that is empty.
pub open spec fn sticky_key(body: JsonView, header: Option<Seq<char>>) -> Option<Seq<char>> {
    let named = match body.get("prompt_cache_key"@) {
        Some(v) => Some(v),
        None => body.get("promptCacheKey"@),
    };
    let key = match text_in(named) {
        Some(s) => Some(s),
        None => header,
    };
    match key {
        Some(s) if s.len() > 0 => Some(s),
        _ => None,
    }
}

/// The session that a request belongs to.
pub fn extract_sticky_key(body: &Json, session_header: Option<&str>) -> (r: Option<String>)
    ensures
        opt_view(r) == sticky_key(body@, opt_str_view(session_header)),
{
    let named = match body.get("prompt_cache_key") {
        Some(v) => Some(v),
        None => body.get("promptCacheKey"),
    };
    let key = match text_of(named) {
        Some(s) => Some(s),
        None => session_header,
    };
    match key {
        Some(s) => if s.is_empty() {
            None
        } else {
            Some(s.to_owned())
        },
        None => None,
    }
}

/// The model that a request asks for; empty where it names none.
pub open spec fn model_asked(body: JsonView) -> Seq<char> {
    match text_in(body.get("model"@)) {
        Some(s) => s,
        None => ""@,
    }
}

/// The model that a request asks for.
pub fn requested_model(body: &Json) -> (r: String)
    ensures
        r@ == model_asked(body@),
{
    match text_of(body.get("model")) {
        Some(s) => s.to_owned(),
        None => "".to_owned(),
    }
}

/// `text/event-stream`, in bytes.
pub open spec fn event_stream() -> Seq<u8> {
    seq![116u8, 101, 120, 116, 47, 101, 118, 101, 110, 116, 45, 115, 116, 114, 101, 97, 109]
}

/// The answer is a stream: the request asked for one, or its content type says
/// so.
pub open spec fn is_stream(body: JsonView, content_type: Seq<u8>) -> bool {
    truth_in(body.get("stream"@)) == Some(true) || (content_type.len() >= 17 && content_type.take(
        17,
    ) == event_stream())
}

/// Whether the answer is a stream.
pub fn usage_is_stream(body: &Json, content_type: &[u8]) -> (r: bool)
    ensures
        r == is_stream(body@, content_type@),
{
    if let Some(true) = truth_of(body.get("stream")) {
        return true;
    }
    let name: [u8; 17] = [
        116,
        101,
        120,
        116,
        47,
        101,
        118,
        101,
        110,
        116,
        45,
        115,
        116,
        114,
        101,
        97,
        109,
    ];
    if content_type.len() < 17 {
        return false;
    }
    for i in 0..17
        invariant
            content_type@.len() >= 17,
            name@ == event_stream(),
            forall|j: int| 0 <= j < i ==> content_type@[j] == event_stream()[j],
            truth_in(body@.get("stream"@)) != Some(true),
    {
        if content_type[i] != name[i] {
            assert(content_type@.take(17)[i as int] != event_stream()[i as int]);
            return false;
        }
    }
    assert(content_type@.take(17) =~= event_stream());
    true
}

/// A request with this header may pass: it carries the expected key, or none is
/// expected.
pub open spec fn admits(expected: Option<Seq<char>>, header: Option<Seq<char>>) -> bool {
    match expected {
        Some(key) => header matches Some(h) && strip_prefix_of(h, "Bearer "@) == Some(key),
        None => true,
    }
}

/// Whether a request with this `Authorization` header may pass.
pub fn admitted(expected: Option<&str>, header: Option<&str>) -> (r: bool)
    ensures
        r == admits(opt_str_view(expected), opt_str_view(header)),
{
    match expected {
        Some(key) => match header {
            Some(h) => match strip_prefix(h, "Bearer ") {
                Some(given) => same(given.as_str(), key),
                None => false,
            },
            None => false,
        },
        None => true,
    }
}

/// A request is let in under a key exactly if its header is `Bearer` and that
/// key.
pub proof fn law_gate_admits_only_the_key(key: Seq<char>, header: Option<Seq<char>>)
    ensures
        admits(Some(key), header) <==> header == Some("Bearer "@ + key),
{
    let p = "Bearer "@;
    if let Some(h) = header {
        if strip_prefix_of(h, p) == Some(key) {
            assert(h =~= p + key);
        }
        if h == p + key {
            assert(h.subrange(0, p.len() as int) =~= p);
            assert(h.skip(p.len() as int) =~= key);
        }
    }
}

// ---------------------------------------------------------------------------
// Answers of the proxy itself
// ---------------------------------------------------------------------------

/// An error as clients expect it.
pub open spec fn error_view(message: Seq<char>, kind: Seq<char>) -> JsonView {
    JsonView::Object(
        Map::empty().insert(
            "error"@,
            JsonView::Object(
                Map::empty().insert("message"@, JsonView::Text(message)).insert(
                    "type"@,
                    JsonView::Text(kind),
                ),
            ),
        ),
    )
}

/// An error as clients expect it.
pub fn error_json(message: &str, kind: &str) -> (r: Json)
    ensures
        r@ == error_view(message@, kind@),
{
    let mut inner = Json::Object(Vec::new());
    inner.set("message", Json::Text(message.to_owned()));
    inner.set("type", Json::Text(kind.to_owned()));
    let mut outer = Json::Object(Vec::new());
    outer.set("error", inner);
    outer
}

/// The seconds until a time, rounded up; none once it has passed.
pub open spec fn seconds_until(until: int, now: int) -> int {
    if until <= now {
        0
    } else {
        (until - now + 999) / 1000
    }
}

/// The seconds until a time, rounded up.
pub fn retry_after_secs(until_ms: i64, now_ms: i64) -> (r: i64)
    ensures
        r == seconds_until(until_ms as int, now_ms as int),
{
    if until_ms <= now_ms {
        return 0;
    }
    let left: i128 = until_ms as i128 - now_ms as i128;
    ((left + 999) / 1000) as i64
}

/// A client that waits as long as it is told does not come back too early, nor a
/// second later than it has to.
pub proof fn law_retry_after_reaches_the_reset(until: int, now: int)
    ensures
        now + seconds_until(until, now) * 1000 >= until,
        until > now ==> now + (seconds_until(until, now) - 1) * 1000 < until,
{
}

/// An upstream answer that is handed on to the client.
#[derive(Debug)]
pub struct Passthrough {
    pub status: u16,
    pub content_type: String,
    pub body: String,
}

pub struct PassView {
    pub status: u16,
    pub content_type: Seq<char>,
    pub body: Seq<char>,
}

impl View for Passthrough {
    type V = PassView;

    open spec fn view(&self) -> PassView {
        PassView { status: self.status, content_type: self.content_type@, body: self.body@ }
    }
}

pub open spec fn pass_view(p: Option<Passthrough>) -> Option<PassView> {
    match p {
        Some(p) => Some(p@),
        None => None,
    }
}

// ---------------------------------------------------------------------------
// The request history
// ---------------------------------------------------------------------------

/// The latest requests, the oldest first.
#[derive(Debug)]
pub struct RequestLog {
    entries: VecDeque<RequestLogEntry>,
}

/// The last [`LOG_BUFFER`] of a list.
pub open spec fn latest<A>(s: Seq<A>) -> Seq<A> {
    if s.len() <= LOG_BUFFER {
        s
    } else {
        s.skip(s.len() - LOG_BUFFER)
    }
}

impl View for RequestLog {
    type V = Seq<RequestLogEntry>;

    closed spec fn view(&self) -> Seq<RequestLogEntry> {
        self.entries@
    }
}

impl RequestLog {
    /// A history without requests.
    pub fn new() -> (r: Self)
        ensures
            r@ == Seq::<RequestLogEntry>::empty(),
    {
        RequestLog { entries: VecDeque::new() }
    }

    /// The requests, the oldest first.
    pub fn entries(&self) -> (r: &VecDeque<RequestLogEntry>)
        ensures
            r@ == self@,
    {
        &self.entries
    }

    /// Adds a request and forgets the oldest ones beyond the limit.
    pub fn push(&mut self, entry: RequestLogEntry)
        ensures
            final(self)@ == latest(old(self)@.push(entry)),
            final(self)@.len() <= LOG_BUFFER,
    {
        self.entries.push_back(entry);
        let ghost full = self.entries@;
        while self.entries.len() > LOG_BUFFER
            invariant
                latest(self.entries@) == latest(full),
            decreases self.entries@.len(),
        {
            let ghost before = self.entries@;
            let _oldest = self.entries.pop_front();
            assert(latest(self.entries@) =~= latest(before));
        }
    }
}

/// What a request is about, apart from the account that it is tried on.
#[derive(Debug)]
pub struct RequestContext {
    pub request_id: String,
    pub path: String,
    pub model: String,
    pub sticky: Option<String>,
    pub body: Vec<u8>,
}

impl RequestContext {
    /// The session of the request, as it is shown.
    pub open spec fn session(self) -> Seq<char> {
        match self.sticky {
            Some(s) => s@,
            None => "none"@,
        }
    }

    /// The document that the body holds; `null` where it holds none.
    pub open spec fn document(self) -> JsonView {
        match document(self.body@) {
            Some(v) => v,
            None => JsonView::Null,
        }
    }
}

/// The line of the history is about this attempt.
pub open spec fn logs_attempt(
    e: RequestLogEntry,
    ctx: RequestContext,
    selection: SelectionView,
    label: Seq<char>,
    status: u16,
    ts: int,
    duration_ms: u64,
) -> bool {
    &&& e.ts == ts
    &&& e.request_id@ == ctx.request_id@
    &&& e.model@ == ctx.model@
    &&& opt_view(e.backend) == Some(selection.backend.name())
    &&& opt_view(e.account) == Some(selection.account_id)
    &&& opt_view(e.label) == Some(label)
    &&& e.sticky@ == ctx.session()
    &&& e.status == status
    &&& e.duration_ms == duration_ms
}

fn log_line(
    ctx: &RequestContext,
    selection: &Selection,
    label: &str,
    status: u16,
    ts: i64,
    duration_ms: u64,
) -> (r: RequestLogEntry)
    ensures
        logs_attempt(r, *ctx, selection@, label@, status, ts as int, duration_ms),
{
    let sticky = match &ctx.sticky {
        Some(s) => s.clone(),
        None => "none".to_owned(),
    };
    RequestLogEntry {
        ts,
        request_id: ctx.request_id.clone(),
        model: ctx.model.clone(),
        backend: Some(selection.backend.as_str().to_owned()),
        account: Some(selection.account_id.clone()),
        label: Some(label.to_owned()),
        sticky,
        status,
        duration_ms,
    }
}

// ---------------------------------------------------------------------------
// Usage records
// ---------------------------------------------------------------------------

/// The record of an attempt whose usage is not known.
pub open spec fn record_of(
    ctx: RequestContext,
    selection: SelectionView,
    label: Seq<char>,
    status: u16,
    ts: int,
) -> RecordView {
    RecordView {
        id: 0,
        request_id: ctx.request_id@,
        ts,
        endpoint: ctx.path@,
        backend: selection.backend.name(),
        model: ctx.model@,
        account_id: selection.account_id,
        account_label: label,
        cache_key: opt_view(ctx.sticky),
        status,
        input_tokens: None,
        output_tokens: None,
    }
}

/// The record of an attempt whose usage is not known.
pub fn usage_record(
    ctx: &RequestContext,
    selection: &Selection,
    account: &Account,
    status: u16,
    ts: i64,
) -> (r: UsageRecord)
    ensures
        r@ == record_of(*ctx, selection@, account.label@, status, ts as int),
{
    UsageRecord {
        id: 0,
        request_id: ctx.request_id.clone(),
        ts,
        endpoint: ctx.path.clone(),
        backend: selection.backend.as_str().to_owned(),
        model: ctx.model.clone(),
        account_id: selection.account_id.clone(),
        account_label: account.label.clone(),
        cache_key: ctx.sticky.clone(),
        status,
        input_tokens: None,
        output_tokens: None,
    }
}

/// The record with the usage that became known.
pub open spec fn measured(record: RecordView, counts: Option<TokenCounts>) -> RecordView {
    match counts {
        Some(c) => RecordView {
            input_tokens: Some(c.input_tokens),
            output_tokens: Some(c.output_tokens),
            ..record
        },
        None => record,
    }
}

/// The record with the usage that became known.
pub fn with_counts(record: UsageRecord, counts: Option<TokenCounts>) -> (r: UsageRecord)
    ensures
        r@ == measured(record@, counts),
{
    let mut record = record;
    if let Some(c) = counts {
        record.input_tokens = Some(c.input_tokens);
        record.output_tokens = Some(c.output_tokens);
    }
    record
}

/// The usage that the text of an answer reports.
pub open spec fn text_usage(text: Seq<char>, chat: bool) -> Option<TokenCounts> {
    match document(encode_utf8(text)) {
        Some(v) => reported_usage(v, chat),
        None => None,
    }
}

/// The usage that the text of an answer reports.
pub fn usage_in_text(text: &str, chat: bool) -> (r: Option<TokenCounts>)
    ensures
        r == text_usage(text@, chat),
{
    match parse_json(text.as_bytes()) {
        Ok(v) => usage_from_json(&v, chat),
        Err(_) => None,
    }
}

// ---------------------------------------------------------------------------
// What is sent
// ---------------------------------------------------------------------------

/// The backends that are known to reject the usage option of a stream.
#[derive(Clone, Copy, Debug, PartialEq, Eq, Structural)]
pub struct UsageSupport {
    pub codex_rejects: bool,
    pub copilot_rejects: bool,
}

impl UsageSupport {
    pub open spec fn rejects(self, b: BackendId) -> bool {
        match b {
            BackendId::Codex => self.codex_rejects,
            BackendId::Copilot => self.copilot_rejects,
        }
    }

    pub open spec fn marked(self, b: BackendId) -> UsageSupport {
        match b {
            BackendId::Codex => UsageSupport { codex_rejects: true, ..self },
            BackendId::Copilot => UsageSupport { copilot_rejects: true, ..self },
        }
    }

    /// No backend is known to reject the option.
    pub fn new() -> (r: Self)
        ensures
            r == (UsageSupport { codex_rejects: false, copilot_rejects: false }),
    {
        UsageSupport { codex_rejects: false, copilot_rejects: false }
    }

    pub fn is_rejected_by(&self, b: BackendId) -> (r: bool)
        ensures
            r == self.rejects(b),
    {
        match b {
            BackendId::Codex => self.codex_rejects,
            BackendId::Copilot => self.copilot_rejects,
        }
    }

    /// Remembers that the backend rejects the option.
    pub fn mark(&mut self, b: BackendId)
        ensures
            *final(self) == old(self).marked(b),
    {
        match b {
            BackendId::Codex => {
                self.codex_rejects = true;
            },
            BackendId::Copilot => {
                self.copilot_rejects = true;
            },
        }
    }
}

/// An upstream request.
#[derive(Debug)]
pub struct Outbound {
    pub url: String,
    pub headers: HeaderMap,
    pub body: Vec<u8>,
    /// The usage option was added to the body.
    pub asks_usage: bool,
    /// The body asks for a stream.
    pub streams: bool,
}

/// The headers that every upstream request has.
pub open spec fn common_fields() -> Fields {
    with_field(
        with_field(Map::empty(), "content-type"@, "application/json"@),
        "accept"@,
        "text/event-stream, application/json"@,
    )
}

/// The body that is sent: prepared by the backend, with the usage option where
/// the backend adds it and `plain` does not forbid it.
pub open spec fn body_sent<B: Backend>(backend: &B, ctx: RequestContext, plain: bool) -> JsonView {
    let prepared = backend.prepared(ctx.document());
    match backend.with_usage(ctx.path@, prepared) {
        Some(v) if !plain => v,
        _ => prepared,
    }
}

/// The request is the one for this account, token and client request.
pub open spec fn is_outbound<B: Backend>(
    out: Outbound,
    backend: &B,
    ctx: RequestContext,
    account: Account,
    token: Seq<char>,
    plain: bool,
) -> bool {
    &&& out.url@ == backend.url(ctx.path@, account)
    &&& fields(out.headers) == backend.injected(
        common_fields(),
        account,
        token,
        opt_view(ctx.sticky),
        ctx.document(),
    )
    &&& out.body@ == json_text(body_sent(backend, ctx, plain))
    &&& out.asks_usage == (!plain && backend.with_usage(
        ctx.path@,
        backend.prepared(ctx.document()),
    ) is Some)
    &&& out.streams == (truth_in(body_sent(backend, ctx, plain).get("stream"@)) == Some(true))
}

/// The upstream request for a client request: with the credential of the account
/// and the headers of the backend, and the body as the backend wants it. With
/// `plain` no usage option is added.
pub fn outbound<B: Backend>(
    backend: &B,
    ctx: &RequestContext,
    account: &Account,
    token: &str,
    plain: bool,
) -> (r: Outbound)
    requires
        is_value_text(token@),
    ensures
        is_outbound(r, backend, *ctx, *account, token@, plain),
{
    proof {
        reveal_strlit("content-type");
        reveal_strlit("application/json");
        reveal_strlit("accept");
        reveal_strlit("text/event-stream, application/json");
    }
    let url = backend.rewrite_url(ctx.path.as_str(), account);
    let mut headers = empty_headers();
    let _taken = set_header(&mut headers, "content-type", "application/json", Ghost(10));
    let _taken = set_header(
        &mut headers,
        "accept",
        "text/event-stream, application/json",
        Ghost(9),
    );
    let mut body = match parse_json(ctx.body.as_slice()) {
        Ok(v) => v,
        Err(_) => Json::Null,
    };
    let sticky = match &ctx.sticky {
        Some(s) => Some(s.as_str()),
        None => None,
    };
    backend.inject_headers(account, token, sticky, &body, &mut headers);
    backend.prepare_body(&mut body);
    let asks_usage = if plain {
        false
    } else {
        backend.auto_stream_usage(ctx.path.as_str(), &mut body)
    };
    let streams = match truth_of(body.get("stream")) {
        Some(b) => b,
        None => false,
    };
    let bytes = json_bytes(&body);
    Outbound { url, headers, body: bytes, asks_usage, streams }
}

// ---------------------------------------------------------------------------
// One account
// ---------------------------------------------------------------------------

/// An upstream answer: its text is read unless it was successful.
#[derive(Debug)]
pub struct Answer {
    pub status: u16,
    pub headers: HeaderMap,
    pub numbers: RetryNumbers,
    pub content_type: Option<String>,
    pub text: String,
}

/// The content type of an answer; JSON where it gives none.
pub open spec fn type_or_json(t: Option<Seq<char>>) -> Seq<char> {
    match t {
        Some(t) => t,
        None => "application/json"@,
    }
}

fn content_type_or_json(t: Option<String>) -> (r: String)
    ensures
        r@ == type_or_json(opt_view(t)),
{
    match t {
        Some(t) => t,
        None => "application/json".to_owned(),
    }
}

/// What an answer leads to.
#[derive(Clone, Copy, Debug, PartialEq, Eq, Structural)]
pub enum Verdict {
    /// The answer goes to the client.
    Stream,
    /// The usage option was not understood: once more without it.
    Resend,
    /// A bad request is handed back.
    Reject,
    /// The credential was not accepted: it is renewed.
    Refresh,
    /// The account failed.
    Fail,
}

/// What an answer leads to, where `asked` says that the usage option was added,
/// and `may_refresh` that the credential of the account was not renewed for this
/// request yet.
pub open spec fn verdict_of(status: u16, text: Seq<char>, asked: bool, may_refresh: bool) -> Verdict {
    if asked && (status == 400 || status == 422) {
        if has_substring(text, "stream_options"@) || has_substring(text, "include_usage"@) {
            Verdict::Resend
        } else {
            Verdict::Reject
        }
    } else if (status == 401 || status == 403) && may_refresh {
        Verdict::Refresh
    } else if !is_success(status) {
        Verdict::Fail
    } else {
        Verdict::Stream
    }
}

/// What an answer leads to.
pub fn judge(status: u16, text: &str, asked: bool, may_refresh: bool) -> (r: Verdict)
    ensures
        r == verdict_of(status, text@, asked, may_refresh),
{
    if asked && (status == 400 || status == 422) {
        if contains(text, "stream_options") || contains(text, "include_usage") {
            Verdict::Resend
        } else {
            Verdict::Reject
        }
    } else if (status == 401 || status == 403) && may_refresh {
        Verdict::Refresh
    } else if !(200 <= status && status < 300) {
        Verdict::Fail
    } else {
        Verdict::Stream
    }
}

/// What the pool, and then the store, record of an outcome.
pub fn report_outcome(pool: &mut PoolCore, account_id: &str, outcome: Outcome) -> (r: Option<
    (AccountStatus, i64),
>)
    requires
        old(pool).wf(),
    ensures
        final(pool).wf(),
        final(pool)@ == reported(old(pool)@, account_id@, outcome),
        r == stored_status(old(pool)@, account_id@, outcome),
{
    match pool.report(account_id, outcome) {
        Some(status) => match pool.account(account_id) {
            Some(a) => Some((status, a.reset_at)),
            None => Some((status, 0)),
        },
        None => None,
    }
}

/// The pool once an outcome was reported.
pub open spec fn reported(v: PoolView, id: Seq<char>, outcome: Outcome) -> PoolView {
    match outcome_status(outcome) {
        Some((status, reset_at)) => v.with_status(id, status, reset_at),
        None => v,
    }
}

/// The status that is stored once an outcome was reported.
pub open spec fn stored_status(v: PoolView, id: Seq<char>, outcome: Outcome) -> Option<
    (AccountStatus, i64),
> {
    if v.accounts.contains_key(id) {
        outcome_status(outcome)
    } else {
        None
    }
}

/// What became of a credential while one request was served: it was rejected,
/// or it was renewed to a token.
#[derive(Debug)]
pub struct Renewal {
    pub account_id: String,
    pub token: Option<String>,
}

/// The accounts of some renewals.
pub open spec fn renewed_ids(s: Seq<Renewal>) -> Seq<Seq<char>> {
    s.map_values(|r: Renewal| r.account_id@)
}

/// The token that the credential of an account was last renewed to.
pub open spec fn renewed_token(s: Seq<Renewal>, id: Seq<char>) -> Option<Seq<char>>
    decreases s.len(),
{
    if s.len() == 0 {
        None
    } else if s.last().account_id@ == id && s.last().token is Some {
        opt_view(s.last().token)
    } else {
        renewed_token(s.drop_last(), id)
    }
}

/// One renewal came to the others.
pub open spec fn adds_renewal(
    before: Seq<Renewal>,
    after: Seq<Renewal>,
    id: Seq<char>,
    token: Option<Seq<char>>,
) -> bool {
    &&& after.len() == before.len() + 1
    &&& after.drop_last() == before
    &&& after.last().account_id@ == id
    &&& opt_view(after.last().token) == token
}

fn has_renewal(list: &Vec<Renewal>, id: &str) -> (r: bool)
    ensures
        r == renewed_ids(list@).contains(id@),
{
    let ghost ids = renewed_ids(list@);
    let mut i: usize = 0;
    while i < list.len()
        invariant
            i <= list@.len(),
            ids == renewed_ids(list@),
            forall|k: int| 0 <= k < i ==> ids[k] != id@,
        decreases list@.len() - i,
    {
        if same(list[i].account_id.as_str(), id) {
            assert(ids[i as int] == id@);
            return true;
        }
        i = i + 1;
    }
    false
}

fn token_renewed(list: &Vec<Renewal>, id: &str) -> (r: Option<String>)
    ensures
        opt_view(r) == renewed_token(list@, id@),
{
    let mut i: usize = list.len();
    assert(list@.take(list@.len() as int) =~= list@);
    while i > 0
        invariant
            i <= list@.len(),
            renewed_token(list@, id@) == renewed_token(list@.take(i as int), id@),
        decreases i,
    {
        let ghost some = list@.take(i as int);
        assert(some.drop_last() =~= list@.take(i - 1));
        assert(some.last() == list@[i - 1]);
        i = i - 1;
        if same(list[i].account_id.as_str(), id) {
            if let Some(token) = &list[i].token {
                return Some(token.clone());
            }
        }
    }
    None
}

/// A token that a credential was renewed to is the one that the account is tried
/// with next, and the renewal counts.
pub proof fn law_renewed_token_is_found(
    before: Seq<Renewal>,
    after: Seq<Renewal>,
    id: Seq<char>,
    token: Option<Seq<char>>,
    other: Seq<char>,
)
    requires
        adds_renewal(before, after, id, token),
    ensures
        renewed_ids(after).contains(id),
        renewed_token(after, id) == (if token is Some {
            token
        } else {
            renewed_token(before, id)
        }),
        other != id ==> renewed_token(after, other) == renewed_token(before, other),
        other != id ==> (renewed_ids(after).contains(other) <==> renewed_ids(before).contains(
            other,
        )),
{
    assert(renewed_ids(after) =~= renewed_ids(before).push(id)) by {
        assert forall|i: int| 0 <= i < before.len() implies after[i] == #[trigger] before[i] by {
            assert(after.drop_last()[i] == before[i]);
        }
    }
    assert(renewed_ids(after)[before.len() as int] == id);
    if other != id && renewed_ids(before).contains(other) {
        let i = choose|i: int|
            0 <= i < renewed_ids(before).len() && renewed_ids(before)[i] == other;
        assert(renewed_ids(after)[i] == other);
    }
}

/// How far the attempt on one account has come.
#[derive(Clone, Copy, Debug, PartialEq, Eq, Structural)]
pub enum Phase {
    /// A token is being looked up.
    Token,
    /// A request was sent; `asked` says that it has the usage option.
    Sent { asked: bool },
    /// The credential is being renewed.
    Refresh,
    /// The attempt is over.
    Over,
}

/// What happens to the attempt on one account.
#[derive(Debug)]
pub enum AttemptEvent {
    Token(String),
    NoToken,
    /// The request could not be sent, or no answer came.
    NoAnswer,
    Answered(Answer),
    Refreshed(String),
    RefreshFailed,
}

/// What the attempt on one account does next.
#[derive(Debug)]
pub enum AttemptAction {
    Send(Outbound),
    Refresh,
    /// The answer goes to the client; the record is completed as it passes.
    Respond(UsageRecord),
    Failover(Option<Passthrough>),
}

/// What has to be stored along with an action.
#[derive(Debug)]
pub struct Effects {
    pub record: Option<UsageRecord>,
    pub status: Option<(AccountStatus, i64)>,
}

pub open spec fn record_view(r: Option<UsageRecord>) -> Option<RecordView> {
    match r {
        Some(r) => Some(r@),
        None => None,
    }
}

impl Effects {
    fn none() -> (r: Self)
        ensures
            r.record is None && r.status is None,
    {
        Effects { record: None, status: None }
    }
}

/// What the attempts of all requests share.
pub struct Shared {
    pub pool: PoolCore,
    pub support: UsageSupport,
    pub log: RequestLog,
}

impl Shared {
    pub open spec fn wf(&self) -> bool {
        self.pool.wf()
    }
}

/// The attempt to serve a request from one account.
#[derive(Debug)]
pub struct AttemptRun {
    pub selection: Selection,
    pub account: Account,
    /// The token that the credential was renewed to for this request.
    pub renewed: Option<String>,
    pub token: String,
    pub phase: Phase,
    /// The last upstream answer, while more is tried on the account.
    pub rejected: Option<Passthrough>,
}

impl AttemptRun {
    /// An upstream answer is kept for the client.
    pub open spec fn keeps(self, status: u16, content_type: Seq<char>, body: Seq<char>) -> bool {
        pass_view(self.rejected) == Some(PassView { status, content_type, body })
    }

    /// Begins the attempt on the account that was selected, and counts it in
    /// flight. Without that account there is no attempt. `renewals` are those of
    /// the earlier attempts of the request.
    pub fn start(pool: &mut PoolCore, selection: &Selection, renewals: &Vec<Renewal>) -> (r: Option<
        AttemptRun,
    >)
        requires
            old(pool).wf(),
        ensures
            final(pool).wf(),
            match r {
                Some(run) => {
                    &&& old(pool)@.accounts.contains_key(selection.account_id@)
                    &&& run.account == old(pool)@.accounts[selection.account_id@].account
                    &&& run.selection@ == selection@
                    &&& opt_view(run.renewed) == renewed_token(
                        renewals@,
                        selection.account_id@,
                    )
                    &&& run.phase == Phase::Token
                    &&& run.rejected is None
                    &&& final(pool)@ == old(pool)@.with_inflight(
                        selection.account_id@,
                        |n: u32| n + 1,
                    )
                },
                None => !old(pool)@.accounts.contains_key(selection.account_id@) && final(pool)@
                    == old(pool)@,
            },
    {
        let account = match pool.account(selection.account_id.as_str()) {
            Some(a) => a.clone(),
            None => return None,
        };
        pool.acquire(selection.account_id.as_str());
        Some(
            AttemptRun {
                selection: selection.clone(),
                account,
                renewed: token_renewed(renewals, selection.account_id.as_str()),
                token: "".to_owned(),
                phase: Phase::Token,
                rejected: None,
            },
        )
    }

    /// The event can come in this phase, and its token can be sent. A renewed token
    /// goes before the stored one.
    pub open spec fn expects(self, event: AttemptEvent) -> bool {
        match event {
            AttemptEvent::Token(t) => self.phase == Phase::Token && is_value_text(t@) && (
            self.renewed matches Some(token) ==> t@ == token@),
            AttemptEvent::NoToken => self.phase == Phase::Token && self.renewed is None,
            AttemptEvent::NoAnswer => self.phase is Sent && is_value_text(self.token@),
            AttemptEvent::Answered(_) => self.phase is Sent && is_value_text(self.token@),
            AttemptEvent::Refreshed(_) => self.phase == Phase::Refresh,
            AttemptEvent::RefreshFailed => self.phase == Phase::Refresh,
        }
    }

    /// How many steps the attempt can still take.
    pub open spec fn steps_left(self) -> int {
        match self.phase {
            Phase::Token => 4,
            Phase::Sent { asked } => if asked {
                3
            } else {
                2
            },
            Phase::Refresh => 1,
            Phase::Over => 0,
        }
    }

    /// Takes the attempt one step further: what to do next and what to store.
    /// `renewals` holds the credentials that were rejected for this request and
    /// what they were renewed to. A renewal ends the attempt: the account may be
    /// selected again, which is another attempt.
    pub fn step<B: Backend>(
        &mut self,
        event: AttemptEvent,
        backend: &B,
        ctx: &RequestContext,
        renewals: &mut Vec<Renewal>,
        shared: &mut Shared,
        now_ms: i64,
        duration_ms: u64,
    ) -> (r: (AttemptAction, Effects))
        requires
            old(self).expects(event),
            old(shared).wf(),
        ensures
            final(shared).wf(),
            final(self).selection == old(self).selection,
            final(self).account == old(self).account,
            final(self).phase is Sent ==> is_value_text(final(self).token@),
            final(self).phase == Phase::Over <==> (r.0 is Respond || r.0 is Failover),
            // an upstream answer is not lost: it is kept, or handed on, or one is streamed
            (event is Answered || (old(self).rejected is Some && event !is NoToken))
                ==> final(self).rejected is Some || r.0 is Respond || (
            r.0 matches AttemptAction::Failover(p) && p is Some),
            final(self).steps_left() < old(self).steps_left(),
            ({
                let id = old(self).selection.account_id@;
                let sel = old(self).selection@;
                let label = old(self).account.label@;
                let pool = old(shared).pool@;
                let backend_id = old(self).selection.backend;
                let record = |status: u16| record_of(*ctx, sel, label, status, now_ms as int);
                let unchanged = final(shared).pool@ == pool && final(shared).support == old(
                    shared,
                ).support && final(shared).log@ == old(shared).log@ && final(renewals)@ == old(
                    renewals,
                )@;
                match event {
                    AttemptEvent::Token(t) => {
                        &&& unchanged
                        &&& r.1.record is None && r.1.status is None
                        &&& final(self).token@ == t@
                        &&& final(self).rejected == old(self).rejected
                        &&& r.0 matches AttemptAction::Send(out) && is_outbound(
                            out,
                            backend,
                            *ctx,
                            old(self).account,
                            t@,
                            old(shared).support.rejects(backend_id),
                        ) && final(self).phase == (Phase::Sent { asked: out.asks_usage })
                    },
                    AttemptEvent::Refreshed(t) => {
                        &&& final(shared).pool@ == pool
                        &&& final(shared).support == old(shared).support
                        &&& final(shared).log@ == old(shared).log@
                        &&& adds_renewal(old(renewals)@, final(renewals)@, id, Some(t@))
                        &&& r.1.record is None && r.1.status is None
                        &&& r.0 matches AttemptAction::Failover(p) && pass_view(p) == pass_view(
                            old(self).rejected,
                        )
                    },
                    AttemptEvent::NoToken => {
                        &&& final(shared).pool@ == reported(pool, id, Outcome::AuthFailed)
                        &&& final(shared).support == old(shared).support
                        &&& final(shared).log@ == old(shared).log@
                        &&& final(renewals)@ == old(renewals)@
                        &&& r.1.record is None
                        &&& r.1.status == stored_status(pool, id, Outcome::AuthFailed)
                        &&& r.0 matches AttemptAction::Failover(p) && p is None
                    },
                    AttemptEvent::RefreshFailed => {
                        &&& final(shared).pool@ == reported(pool, id, Outcome::AuthFailed)
                        &&& final(shared).support == old(shared).support
                        &&& final(shared).log@ == old(shared).log@
                        &&& final(renewals)@ == old(renewals)@
                        &&& r.1.record is None
                        &&& r.1.status == stored_status(pool, id, Outcome::AuthFailed)
                        &&& r.0 matches AttemptAction::Failover(p) && pass_view(p) == pass_view(
                            old(self).rejected,
                        )
                    },
                    AttemptEvent::NoAnswer => {
                        &&& unchanged
                        &&& record_view(r.1.record) == Some(record(0))
                        &&& r.1.status is None
                        &&& r.0 matches AttemptAction::Failover(p) && pass_view(p) == pass_view(
                            old(self).rejected,
                        )
                    },
                    AttemptEvent::Answered(answer) => {
                        let asked = old(self).phase == (Phase::Sent { asked: true });
                        let may_refresh = !renewed_ids(old(renewals)@).contains(id);
                        let with_usage = measured(
                            record(answer.status),
                            text_usage(answer.text@, backend.is_chat(ctx.path@)),
                        );
                        let logged = exists|e: RequestLogEntry| #[trigger]
                            logs_attempt(
                                e,
                                *ctx,
                                sel,
                                label,
                                answer.status,
                                now_ms as int,
                                duration_ms,
                            ) && final(shared).log@ == latest(old(shared).log@.push(e));
                        match verdict_of(answer.status, answer.text@, asked, may_refresh) {
                            Verdict::Stream => {
                                &&& final(shared).pool@ == pool
                                &&& final(shared).support == old(shared).support
                                &&& final(renewals)@ == old(renewals)@
                                &&& logged
                                &&& r.1.record is None && r.1.status is None
                                &&& r.0 matches AttemptAction::Respond(rec) && rec@ == record(
                                    answer.status,
                                )
                            },
                            Verdict::Resend => {
                                &&& final(shared).pool@ == pool
                                &&& final(shared).support == old(shared).support.marked(backend_id)
                                &&& final(shared).log@ == old(shared).log@
                                &&& final(renewals)@ == old(renewals)@
                                &&& record_view(r.1.record) == Some(record(answer.status))
                                &&& r.1.status is None
                                &&& final(self).phase == (Phase::Sent { asked: false })
                                &&& final(self).keeps(
                                    answer.status,
                                    "application/json"@,
                                    answer.text@,
                                )
                                &&& r.0 matches AttemptAction::Send(out) && is_outbound(
                                    out,
                                    backend,
                                    *ctx,
                                    old(self).account,
                                    old(self).token@,
                                    true,
                                )
                            },
                            Verdict::Reject => {
                                &&& final(shared).pool@ == pool
                                &&& final(shared).support == old(shared).support
                                &&& final(renewals)@ == old(renewals)@
                                &&& logged
                                &&& record_view(r.1.record) == Some(record(answer.status))
                                &&& r.1.status is None
                                &&& r.0 matches AttemptAction::Failover(p) && pass_view(p) == Some(
                                    PassView {
                                        status: answer.status,
                                        content_type: "application/json"@,
                                        body: answer.text@,
                                    },
                                )
                            },
                            Verdict::Refresh => {
                                &&& final(shared).pool@ == pool
                                &&& final(shared).support == old(shared).support
                                &&& final(shared).log@ == old(shared).log@
                                &&& adds_renewal(old(renewals)@, final(renewals)@, id, None)
                                &&& record_view(r.1.record) == Some(with_usage)
                                &&& r.1.status is None
                                &&& r.0 is Refresh
                                &&& final(self).phase == Phase::Refresh
                                &&& final(self).keeps(
                                    answer.status,
                                    type_or_json(opt_view(answer.content_type)),
                                    answer.text@,
                                )
                            },
                            Verdict::Fail => {
                                let outcome = backend.outcome(
                                    answer.status,
                                    answer.text@,
                                    retry_deadline(answer.headers, answer.numbers, now_ms as int),
                                    now_ms as int,
                                );
                                &&& final(shared).pool@ == reported(pool, id, outcome)
                                &&& final(shared).support == old(shared).support
                                &&& final(renewals)@ == old(renewals)@
                                &&& logged
                                &&& record_view(r.1.record) == Some(with_usage)
                                &&& r.1.status == stored_status(pool, id, outcome)
                                &&& r.0 matches AttemptAction::Failover(p) && pass_view(p) == Some(
                                    PassView {
                                        status: answer.status,
                                        content_type: type_or_json(opt_view(answer.content_type)),
                                        body: answer.text@,
                                    },
                                )
                            },
                        }
                    },
                }
            }),
    {
        match event {
            AttemptEvent::Token(t) => self.send(t, backend, ctx, shared),
            AttemptEvent::Refreshed(t) => {
                self.phase = Phase::Over;
                renewals.push(
                    Renewal { account_id: self.selection.account_id.clone(), token: Some(t) },
                );
                assert(renewals@.drop_last() =~= old(renewals)@);
                let pass = self.rejected.take();
                (AttemptAction::Failover(pass), Effects::none())
            },
            AttemptEvent::NoToken => {
                self.phase = Phase::Over;
                let status = report_outcome(
                    &mut shared.pool,
                    self.selection.account_id.as_str(),
                    Outcome::AuthFailed,
                );
                (AttemptAction::Failover(None), Effects { record: None, status })
            },
            AttemptEvent::RefreshFailed => {
                self.phase = Phase::Over;
                let status = report_outcome(
                    &mut shared.pool,
                    self.selection.account_id.as_str(),
                    Outcome::AuthFailed,
                );
                let pass = self.rejected.take();
                (AttemptAction::Failover(pass), Effects { record: None, status })
            },
            AttemptEvent::NoAnswer => {
                self.phase = Phase::Over;
                let record = usage_record(ctx, &self.selection, &self.account, 0, now_ms);
                let pass = self.rejected.take();
                (
                    AttemptAction::Failover(pass),
                    Effects { record: Some(record), status: None },
                )
            },
            AttemptEvent::Answered(answer) => {
                let asked = match self.phase {
                    Phase::Sent { asked } => asked,
                    _ => false,
                };
                let may_refresh = !has_renewal(renewals, self.selection.account_id.as_str());
                let record = usage_record(
                    ctx,
                    &self.selection,
                    &self.account,
                    answer.status,
                    now_ms,
                );
                match judge(answer.status, answer.text.as_str(), asked, may_refresh) {
                    Verdict::Stream => {
                        self.phase = Phase::Over;
                        self.log(ctx, shared, answer.status, now_ms, duration_ms);
                        (AttemptAction::Respond(record), Effects::none())
                    },
                    Verdict::Resend => {
                        shared.support.mark(self.selection.backend);
                        let out = outbound(
                            backend,
                            ctx,
                            &self.account,
                            self.token.as_str(),
                            true,
                        );
                        self.phase = Phase::Sent { asked: false };
                        self.rejected = Some(
                            Passthrough {
                                status: answer.status,
                                content_type: "application/json".to_owned(),
                                body: answer.text,
                            },
                        );
                        (AttemptAction::Send(out), Effects { record: Some(record), status: None })
                    },
                    Verdict::Reject => {
                        self.phase = Phase::Over;
                        self.log(ctx, shared, answer.status, now_ms, duration_ms);
                        let pass = Passthrough {
                            status: answer.status,
                            content_type: "application/json".to_owned(),
                            body: answer.text,
                        };
                        (
                            AttemptAction::Failover(Some(pass)),
                            Effects { record: Some(record), status: None },
                        )
                    },
                    Verdict::Refresh => {
                        self.phase = Phase::Refresh;
                        renewals.push(
                            Renewal { account_id: self.selection.account_id.clone(), token: None },
                        );
                        assert(renewals@.drop_last() =~= old(renewals)@);
                        let chat = backend.usage_is_chat(ctx.path.as_str());
                        let counts = usage_in_text(answer.text.as_str(), chat);
                        self.rejected = Some(
                            Passthrough {
                                status: answer.status,
                                content_type: content_type_or_json(answer.content_type),
                                body: answer.text,
                            },
                        );
                        (
                            AttemptAction::Refresh,
                            Effects { record: Some(with_counts(record, counts)), status: None },
                        )
                    },
                    Verdict::Fail => {
                        self.phase = Phase::Over;
                        let chat = backend.usage_is_chat(ctx.path.as_str());
                        let counts = usage_in_text(answer.text.as_str(), chat);
                        let outcome = backend.classify(
                            answer.status,
                            answer.text.as_str(),
                            &answer.headers,
                            &answer.numbers,
                            now_ms,
                        );
                        let status = report_outcome(
                            &mut shared.pool,
                            self.selection.account_id.as_str(),
                            outcome,
                        );
                        self.log(ctx, shared, answer.status, now_ms, duration_ms);
                        let pass = Passthrough {
                            status: answer.status,
                            content_type: content_type_or_json(answer.content_type),
                            body: answer.text,
                        };
                        (
                            AttemptAction::Failover(Some(pass)),
                            Effects { record: Some(with_counts(record, counts)), status },
                        )
                    },
                }
            },
        }
    }

    fn send<B: Backend>(
        &mut self,
        token: String,
        backend: &B,
        ctx: &RequestContext,
        shared: &Shared,
    ) -> (r: (AttemptAction, Effects))
        requires
            is_value_text(token@),
        ensures
            final(self).selection == old(self).selection,
            final(self).account == old(self).account,
            final(self).token@ == token@,
            final(self).rejected == old(self).rejected,
            r.1.record is None && r.1.status is None,
            r.0 matches AttemptAction::Send(out) && is_outbound(
                out,
                backend,
                *ctx,
                old(self).account,
                token@,
                shared.support.rejects(old(self).selection.backend),
            ) && final(self).phase == (Phase::Sent { asked: out.asks_usage }),
    {
        let plain = shared.support.is_rejected_by(self.selection.backend);
        let out = outbound(backend, ctx, &self.account, token.as_str(), plain);
        self.phase = Phase::Sent { asked: out.asks_usage };
        self.token = token;
        (AttemptAction::Send(out), Effects::none())
    }

    fn log(
        &self,
        ctx: &RequestContext,
        shared: &mut Shared,
        status: u16,
        now_ms: i64,
        duration_ms: u64,
    )
        requires
            old(shared).wf(),
        ensures
            final(shared).wf(),
            final(shared).pool == old(shared).pool,
            final(shared).support == old(shared).support,
            exists|e: RequestLogEntry| #[trigger]
                logs_attempt(
                    e,
                    *ctx,
                    self.selection@,
                    self.account.label@,
                    status,
                    now_ms as int,
                    duration_ms,
                ) && final(shared).log@ == latest(old(shared).log@.push(e)),
    {
        let line = log_line(
            ctx,
            &self.selection,
            self.account.label.as_str(),
            status,
            now_ms,
            duration_ms,
        );
        shared.log.push(line);
    }
}

/// A credential that was not accepted is renewed once for a request: after that
/// the account fails.
pub proof fn law_one_refresh_per_account(status: u16, text: Seq<char>, asked: bool)
    requires
        status == 401 || status == 403,
    ensures
        verdict_of(status, text, asked, true) == Verdict::Refresh,
        verdict_of(status, text, asked, false) == Verdict::Fail,
{
}

/// An answer goes to the client exactly if it was successful.
pub proof fn law_only_success_is_streamed(status: u16, text: Seq<char>, asked: bool, may: bool)
    ensures
        verdict_of(status, text, asked, may) == Verdict::Stream <==> is_success(status),
{
}

/// Whatever the backend, an account whose answer means a rejected credential has
/// had that credential renewed for this request before.
pub proof fn law_credential_error_survives_a_refresh(
    codex: &CodexBackend,
    copilot: &CopilotBackend,
    status: u16,
    text: Seq<char>,
    asked: bool,
    may_refresh: bool,
    until: Option<i64>,
    now: int,
)
    requires
        verdict_of(status, text, asked, may_refresh) == Verdict::Fail,
        codex.outcome(status, text, until, now) == Outcome::AuthFailed || copilot.outcome(
            status,
            text,
            until,
            now,
        ) == Outcome::AuthFailed,
    ensures
        !may_refresh,
{
}

/// A transient failure, and a success, leave the health of every account as it
/// was.
pub proof fn law_transient_failure_keeps_health(pool: PoolView, id: Seq<char>)
    ensures
        reported(pool, id, Outcome::Transient) == pool,
        reported(pool, id, Outcome::Success) == pool,
        stored_status(pool, id, Outcome::Transient) is None,
        stored_status(pool, id, Outcome::Success) is None,
{
}

/// A backend that rejected the usage option is not sent it again, whatever other
/// backends do.
pub proof fn law_rejected_option_is_not_sent_again<B: Backend>(
    out: Outbound,
    backend: &B,
    ctx: RequestContext,
    account: Account,
    token: Seq<char>,
    support: UsageSupport,
    b: BackendId,
    other: BackendId,
)
    requires
        is_outbound(
            out,
            backend,
            ctx,
            account,
            token,
            support.marked(b).marked(other).rejects(b),
        ),
    ensures
        !out.asks_usage,
        out.body@ == json_text(backend.prepared(ctx.document())),
{
}

// ---------------------------------------------------------------------------
// The whole pool
// ---------------------------------------------------------------------------

/// How far a request has come.
#[derive(Clone, Copy, Debug, PartialEq, Eq, Structural)]
pub enum InferPhase {
    /// Nothing was tried yet.
    Ready,
    /// A banked reset is tried first, in case all of Codex is out of quota.
    FirstReset,
    /// A banked reset is tried because the whole pool is out of quota until the
    /// given time.
    ResetForChoice { until_ms: i64 },
    /// A banked reset is tried because every attempt failed.
    ResetForMore,
    /// An account is being tried.
    Attempt,
    /// The request is answered.
    Over,
}

/// What happens to a request.
#[derive(Debug)]
pub enum InferEvent {
    Begin,
    /// The reset was tried: did an account recover?
    ResetDone(bool),
    /// The account answered the client.
    Responded,
    FailedOver(Option<Passthrough>),
}

/// How a request is answered.
#[derive(Debug)]
pub enum Final {
    /// By the account that was tried.
    Response,
    /// The pool is out of quota until the given time.
    Saturated { until_ms: i64 },
    /// With the last upstream error.
    Upstream(Passthrough),
    /// No account serves the model.
    NoAccounts,
    /// Every attempt failed without an upstream answer.
    PoolExhausted,
}

/// What a request does next.
#[derive(Debug)]
pub enum InferAction {
    TryReset,
    TryAccount(Selection),
    Finish(Final),
}

pub enum FinalView {
    Response,
    Saturated { until_ms: i64 },
    Upstream(PassView),
    NoAccounts,
    PoolExhausted,
}

pub enum InferActionView {
    TryReset,
    TryAccount(SelectionView),
    Finish(FinalView),
}

impl View for InferAction {
    type V = InferActionView;

    open spec fn view(&self) -> InferActionView {
        match self {
            InferAction::TryReset => InferActionView::TryReset,
            InferAction::TryAccount(s) => InferActionView::TryAccount(s@),
            InferAction::Finish(f) => InferActionView::Finish(
                match f {
                    Final::Response => FinalView::Response,
                    Final::Saturated { until_ms } => FinalView::Saturated { until_ms: *until_ms },
                    Final::Upstream(p) => FinalView::Upstream(p@),
                    Final::NoAccounts => FinalView::NoAccounts,
                    Final::PoolExhausted => FinalView::PoolExhausted,
                },
            ),
        }
    }
}

/// The course of a request through the pool.
#[derive(Debug)]
pub struct InferRun {
    phase: InferPhase,
    accounts: usize,
    attempts: u128,
    max_attempts: u128,
    reset_tried: bool,
    last: Option<Passthrough>,
}

pub struct InferView {
    pub phase: InferPhase,
    /// The accounts of the pool as the first one was selected, at least one.
    pub accounts: int,
    /// The attempts so far.
    pub attempts: int,
    /// The attempts that may be made.
    pub max_attempts: int,
    /// A reset was tried after the first selection.
    pub reset_tried: bool,
    /// The last upstream error.
    pub last: Option<PassView>,
}

impl View for InferRun {
    type V = InferView;

    closed spec fn view(&self) -> InferView {
        InferView {
            phase: self.phase,
            accounts: self.accounts as int,
            attempts: self.attempts as int,
            max_attempts: self.max_attempts as int,
            reset_tried: self.reset_tried,
            last: pass_view(self.last),
        }
    }
}

/// What a request asks of the pool, at a time.
pub struct Ask {
    pub now: int,
    pub sticky: Option<Seq<char>>,
    pub model: Seq<char>,
}

impl InferView {
    /// The run of a request that has just come in.
    pub open spec fn fresh() -> InferView {
        InferView {
            phase: InferPhase::Ready,
            accounts: 1,
            attempts: 0,
            max_attempts: 1,
            reset_tried: false,
            last: None,
        }
    }

    /// The request may be tried on each account of the pool.
    pub open spec fn counted(self, pool: PoolView) -> InferView {
        let n = pool.accounts.dom().len();
        let accounts: int = if n < 1 {
            1
        } else {
            n as int
        };
        InferView { accounts, max_attempts: accounts, ..self }
    }

    /// The request is answered.
    pub open spec fn over(self, answer: FinalView) -> (InferView, InferActionView) {
        (
            InferView { phase: InferPhase::Over, last: None, ..self },
            InferActionView::Finish(answer),
        )
    }

    /// The last upstream error, else the given answer.
    pub open spec fn last_or(self, answer: FinalView) -> FinalView {
        match self.last {
            Some(p) => FinalView::Upstream(p),
            None => answer,
        }
    }

    /// The selection decides: its account is tried, or the request is answered.
    pub open spec fn decided(self, choice: Result<SelectionView, SelectError>) -> (
        InferView,
        InferActionView,
    ) {
        match choice {
            Ok(s) => (
                InferView { phase: InferPhase::Attempt, ..self },
                InferActionView::TryAccount(s),
            ),
            Err(SelectError::Saturated { until_ms }) => self.over(FinalView::Saturated { until_ms }),
            Err(SelectError::NoAccounts) => self.over(self.last_or(FinalView::NoAccounts)),
        }
    }

    /// Goes on: while attempts are left, the pool selects an account, and the
    /// first time that it is out of quota a reset is tried. With no attempts
    /// left the request is answered.
    pub open spec fn going_on(self, choice: Result<SelectionView, SelectError>) -> (
        InferView,
        InferActionView,
    ) {
        if self.attempts < self.max_attempts {
            let next = InferView { attempts: self.attempts + 1, ..self };
            match choice {
                Err(SelectError::Saturated { until_ms }) if !self.reset_tried => (
                    InferView {
                        phase: InferPhase::ResetForChoice { until_ms },
                        reset_tried: true,
                        ..next
                    },
                    InferActionView::TryReset,
                ),
                _ => next.decided(choice),
            }
        } else {
            match choice {
                Err(SelectError::Saturated { until_ms }) => self.over(
                    FinalView::Saturated { until_ms },
                ),
                _ => self.over(self.last_or(FinalView::PoolExhausted)),
            }
        }
    }

    /// The pool selects, and the request goes on.
    pub open spec fn selecting(self, pool: PoolView, ask: Ask) -> (
        InferView,
        InferActionView,
        PoolView,
    ) {
        let (choice, after) = pool.selected(ask.now, ask.sticky, ask.model);
        let (next, action) = self.going_on(choice);
        (next, action, after)
    }

    /// The event can come in this phase.
    pub open spec fn expects(self, event: InferEvent) -> bool {
        match event {
            InferEvent::Begin => self.phase == InferPhase::Ready,
            InferEvent::ResetDone(_) => self.phase == InferPhase::FirstReset || self.phase
                is ResetForChoice || self.phase == InferPhase::ResetForMore,
            InferEvent::Responded => self.phase == InferPhase::Attempt,
            InferEvent::FailedOver(_) => self.phase == InferPhase::Attempt,
        }
    }

    /// The run and the pool after an event, and what to do next.
    pub open spec fn after(self, event: InferEvent, pool: PoolView, ask: Ask) -> (
        InferView,
        InferActionView,
        PoolView,
    ) {
        match event {
            InferEvent::Begin => (
                InferView { phase: InferPhase::FirstReset, ..self },
                InferActionView::TryReset,
                pool,
            ),
            InferEvent::Responded => {
                let (next, action) = self.over(FinalView::Response);
                (next, action, pool)
            },
            InferEvent::FailedOver(p) => {
                let kept = InferView {
                    last: match pass_view(p) {
                        Some(q) => Some(q),
                        None => self.last,
                    },
                    ..self
                };
                if self.attempts == self.max_attempts && !self.reset_tried {
                    (
                        InferView { phase: InferPhase::ResetForMore, reset_tried: true, ..kept },
                        InferActionView::TryReset,
                        pool,
                    )
                } else {
                    kept.selecting(pool, ask)
                }
            },
            InferEvent::ResetDone(recovered) => match self.phase {
                InferPhase::FirstReset => self.counted(pool).selecting(pool, ask),
                InferPhase::ResetForChoice { until_ms } => if recovered {
                    let (choice, after) = pool.selected(ask.now, ask.sticky, ask.model);
                    let (next, action) = self.decided(choice);
                    (next, action, after)
                } else {
                    let (next, action) = self.decided(Err(SelectError::Saturated { until_ms }));
                    (next, action, pool)
                },
                _ => {
                    let more: int = if recovered {
                        1
                    } else {
                        0
                    };
                    (InferView { max_attempts: self.max_attempts + more, ..self }).selecting(
                        pool,
                        ask,
                    )
                },
            },
        }
    }

    /// What every run keeps to: the attempts stay within the number of accounts,
    /// plus one once a reset was tried.
    pub open spec fn valid(self) -> bool {
        &&& 1 <= self.accounts
        &&& 0 <= self.attempts <= self.max_attempts
        &&& self.accounts <= self.max_attempts <= self.accounts + 1
        &&& self.max_attempts > self.accounts ==> self.reset_tried && self.attempts
            >= self.accounts
        &&& self.phase == InferPhase::ResetForMore ==> self.max_attempts == self.accounts
            && self.attempts == self.max_attempts && self.reset_tried
        &&& self.phase is ResetForChoice ==> self.reset_tried && self.attempts > 0
        &&& self.phase == InferPhase::Ready || self.phase == InferPhase::FirstReset
            ==> self.attempts == 0 && !self.reset_tried && self.max_attempts == self.accounts
        &&& self.phase == InferPhase::Attempt ==> self.attempts > 0
    }

    /// How many steps the request can still take, once its first account is
    /// selected.
    pub open spec fn steps_left(self) -> int {
        let resets: int = if self.reset_tried {
            0
        } else {
            5
        };
        let rounds = 2 * (self.max_attempts - self.attempts) + resets;
        match self.phase {
            InferPhase::Ready => rounds + 3,
            InferPhase::FirstReset => rounds + 2,
            InferPhase::Attempt => rounds + 1,
            InferPhase::ResetForChoice { .. } => rounds + 2,
            InferPhase::ResetForMore => rounds + 5,
            InferPhase::Over => 0,
        }
    }
}

impl InferRun {
    pub open spec fn wf(&self) -> bool {
        &&& self@.valid()
        &&& self@.accounts <= usize::MAX
    }

    /// The run of a request that has just come in.
    pub fn new() -> (r: Self)
        ensures
            r@ == InferView::fresh(),
            r.wf(),
    {
        InferRun {
            phase: InferPhase::Ready,
            accounts: 1,
            attempts: 0,
            max_attempts: 1,
            reset_tried: false,
            last: None,
        }
    }

    fn finish(&mut self, answer: Final) -> (r: InferAction)
        ensures
            (final(self)@, r@) == old(self)@.over(InferAction::Finish(answer)@->Finish_0),
    {
        self.phase = InferPhase::Over;
        self.last = None;
        InferAction::Finish(answer)
    }

    fn finish_with_last(&mut self, answer: Final) -> (r: InferAction)
        ensures
            (final(self)@, r@) == old(self)@.over(
                old(self)@.last_or(InferAction::Finish(answer)@->Finish_0),
            ),
    {
        self.phase = InferPhase::Over;
        match self.last.take() {
            Some(p) => InferAction::Finish(Final::Upstream(p)),
            None => InferAction::Finish(answer),
        }
    }

    fn decide(&mut self, choice: Result<Selection, SelectError>) -> (r: InferAction)
        ensures
            (final(self)@, r@) == old(self)@.decided(choice_view(choice)),
    {
        match choice {
            Ok(s) => {
                self.phase = InferPhase::Attempt;
                InferAction::TryAccount(s)
            },
            Err(SelectError::Saturated { until_ms }) => self.finish(Final::Saturated { until_ms }),
            Err(SelectError::NoAccounts) => self.finish_with_last(Final::NoAccounts),
        }
    }

    fn go_on(&mut self, choice: Result<Selection, SelectError>) -> (r: InferAction)
        requires
            old(self)@.attempts <= usize::MAX + 1,
        ensures
            (final(self)@, r@) == old(self)@.going_on(choice_view(choice)),
    {
        if self.attempts < self.max_attempts {
            self.attempts = self.attempts + 1;
            if !self.reset_tried {
                if let Err(SelectError::Saturated { until_ms }) = &choice {
                    self.reset_tried = true;
                    self.phase = InferPhase::ResetForChoice { until_ms: *until_ms };
                    return InferAction::TryReset;
                }
            }
            self.decide(choice)
        } else {
            match choice {
                Err(SelectError::Saturated { until_ms }) => self.finish(
                    Final::Saturated { until_ms },
                ),
                _ => self.finish_with_last(Final::PoolExhausted),
            }
        }
    }

    /// Takes the request one step further: what to do next.
    pub fn step(
        &mut self,
        event: InferEvent,
        pool: &mut PoolCore,
        now_ms: i64,
        sticky: Option<&str>,
        model: &str,
    ) -> (r: InferAction)
        requires
            old(self).wf(),
            old(self)@.expects(event),
            old(pool).wf(),
        ensures
            final(self).wf(),
            final(pool).wf(),
            (final(self)@, r@, final(pool)@) == old(self)@.after(
                event,
                old(pool)@,
                Ask { now: now_ms as int, sticky: opt_str_view(sticky), model: model@ },
            ),
    {
        match event {
            InferEvent::Begin => {
                self.phase = InferPhase::FirstReset;
                InferAction::TryReset
            },
            InferEvent::Responded => self.finish(Final::Response),
            InferEvent::FailedOver(p) => {
                match p {
                    Some(q) => {
                        self.last = Some(q);
                    },
                    None => {},
                }
                if self.attempts == self.max_attempts && !self.reset_tried {
                    self.reset_tried = true;
                    self.phase = InferPhase::ResetForMore;
                    return InferAction::TryReset;
                }
                let choice = pool.select(now_ms, sticky, model);
                self.go_on(choice)
            },
            InferEvent::ResetDone(recovered) => match self.phase {
                InferPhase::ResetForChoice { until_ms } => {
                    if recovered {
                        let choice = pool.select(now_ms, sticky, model);
                        self.decide(choice)
                    } else {
                        self.decide(Err(SelectError::Saturated { until_ms }))
                    }
                },
                InferPhase::FirstReset => {
                    let n = pool.account_count();
                    self.accounts = if n < 1 {
                        1
                    } else {
                        n
                    };
                    self.max_attempts = self.accounts as u128;
                    let choice = pool.select(now_ms, sticky, model);
                    self.go_on(choice)
                },
                _ => {
                    if recovered {
                        self.max_attempts = self.max_attempts + 1;
                    }
                    let choice = pool.select(now_ms, sticky, model);
                    self.go_on(choice)
                },
            },
        }
    }
}

/// A request makes at most as many attempts as there are accounts, and one more
/// only after a reset was tried.
pub proof fn law_attempts_are_bounded(run: InferView, event: InferEvent, pool: PoolView, ask: Ask)
    requires
        run.valid(),
        run.expects(event),
    ensures
        run.after(event, pool, ask).0.valid(),
        run.after(event, pool, ask).1 is TryAccount ==> {
            let next = run.after(event, pool, ask).0;
            &&& next.attempts <= next.accounts + 1
            &&& next.attempts == next.accounts + 1 ==> next.reset_tried
        },
{
}

/// The one attempt more than there are accounts is made only right after a reset
/// with which an account recovered.
pub proof fn law_extra_attempt_needs_recovery(run: InferView, event: InferEvent, pool: PoolView, ask: Ask)
    requires
        run.valid(),
        run.expects(event),
        run.max_attempts == run.accounts,
        run.phase != InferPhase::FirstReset,
        run.after(event, pool, ask).0.max_attempts > run.accounts,
    ensures
        event == InferEvent::ResetDone(true),
        run.phase == InferPhase::ResetForMore,
{
}

/// An attempt that a renewal ended, on the account that was selected first from the
/// pool `v`, is followed by one on the same account, if the health of the
/// accounts stays as it is. That is another attempt: with none left, and no
/// reset to try, the upstream answer goes to the client.
pub proof fn law_retry_is_another_attempt(
    run: InferView,
    p: Passthrough,
    v: PoolView,
    ask: Ask,
    later: int,
)
    requires
        run.valid(),
        run.phase == InferPhase::Attempt,
        v.wf(),
        ask.now <= later,
        ({
            let (first, w) = v.selected(ask.now, ask.sticky, ask.model);
            &&& first is Ok
            &&& w.accounts[first->Ok_0.account_id].inflight < u32::MAX
            &&& forall|id: Seq<char>| #[trigger]
                w.accounts.contains_key(id) ==> !lapsed(w.accounts[id].account, later)
            &&& ask.sticky matches Some(key) ==> (lookup(w.bindings, key) matches Some(e)
                ==> is_fresh(e, later))
        }),
    ensures
        ({
            let (first, w) = v.selected(ask.now, ask.sticky, ask.model);
            let id = first->Ok_0.account_id;
            let ended = w.with_inflight(id, |n: u32| n + 1).with_inflight(id, |n: u32| n - 1);
            let (next, action, _) = run.after(
                InferEvent::FailedOver(Some(p)),
                ended,
                (Ask { now: later, ..ask }),
            );
            &&& run.attempts < run.max_attempts ==> next.attempts == run.attempts + 1 && (
            action matches InferActionView::TryAccount(again) && again.account_id == id)
            &&& run.attempts == run.max_attempts && run.reset_tried ==> action
                == InferActionView::Finish(FinalView::Upstream(p@))
            &&& run.attempts == run.max_attempts && !run.reset_tried ==> action
                is TryReset
        }),
{
    law_selection_repeats(v, ask.now, ask.sticky, ask.model, later);
}

/// The first successful answer is the answer to the request: nothing is tried
/// after it.
pub proof fn law_first_success_ends_the_request(run: InferView, pool: PoolView, ask: Ask)
    ensures
        run.after(InferEvent::Responded, pool, ask).0.phase == InferPhase::Over,
        run.after(InferEvent::Responded, pool, ask).1 == InferActionView::Finish(
            FinalView::Response,
        ),
        run.after(InferEvent::Responded, pool, ask).2 == pool,
{
}

/// After the first selection at most one reset is tried for a request.
pub proof fn law_one_reset_per_request(run: InferView, event: InferEvent, pool: PoolView, ask: Ask)
    requires
        run.valid(),
        run.expects(event),
    ensures
        run.reset_tried ==> run.after(event, pool, ask).0.reset_tried && !(run.after(
            event,
            pool,
            ask,
        ).1 is TryReset),
        run.after(event, pool, ask).1 is TryReset ==> event == InferEvent::Begin || run.after(
            event,
            pool,
            ask,
        ).0.reset_tried,
{
}

/// Every request comes to an end: each step leaves fewer steps, apart from the
/// one that counts the accounts.
pub proof fn law_request_ends(run: InferView, event: InferEvent, pool: PoolView, ask: Ask)
    requires
        run.valid(),
        run.expects(event),
        run.phase != InferPhase::FirstReset,
    ensures
        0 <= run.after(event, pool, ask).0.steps_left() < run.steps_left(),
{
}

/// A request whose attempts all failed is answered with the last upstream error
/// that came, unless the pool is out of quota.
pub proof fn law_upstream_error_is_preserved(run: InferView, event: InferEvent, pool: PoolView, ask: Ask, error: PassView)
    requires
        run.valid(),
        run.expects(event),
        match event {
            InferEvent::FailedOver(p) => pass_view(p) == Some(error) || (p is None && run.last
                == Some(error)),
            _ => run.last == Some(error),
        },
    ensures
        ({
            let (next, action, _) = run.after(event, pool, ask);
            match action {
                InferActionView::Finish(FinalView::Upstream(p)) => p == error,
                InferActionView::Finish(FinalView::Response) => event == InferEvent::Responded,
                InferActionView::Finish(FinalView::Saturated { .. }) => true,
                InferActionView::Finish(_) => false,
                _ => next.last == Some(error),
            }
        }),
{
}

/// When the pool is out of quota, the request is answered with the earliest reset
/// after the one reset attempt was made.
pub proof fn law_saturation_fails_fast(run: InferView, pool: PoolView, ask: Ask, until_ms: i64)
    requires
        run.valid(),
        run.phase == InferPhase::Attempt,
        pool.selected(ask.now, ask.sticky, ask.model).0 == Err::<SelectionView, SelectError>(
            SelectError::Saturated { until_ms },
        ),
    ensures
        run.after(InferEvent::FailedOver(None), pool, ask).1 == (if run.reset_tried {
            InferActionView::Finish(FinalView::Saturated { until_ms })
        } else {
            InferActionView::TryReset
        }),
{
}

/// When the one reset brought no account back, a request that found the pool out
/// of quota is answered with the time of the earliest reset.
pub proof fn law_no_recovery_is_saturation(run: InferView, pool: PoolView, ask: Ask, until_ms: i64)
    requires
        run.valid(),
        run.phase == (InferPhase::ResetForChoice { until_ms }) || (run.phase
            == InferPhase::ResetForMore && pool.selected(ask.now, ask.sticky, ask.model).0
            == Err::<SelectionView, SelectError>(SelectError::Saturated { until_ms })),
    ensures
        run.after(InferEvent::ResetDone(false), pool, ask).1 == InferActionView::Finish(
            FinalView::Saturated { until_ms },
        ),
{
}

/// How a request is answered that no account answered: status, message and kind.
pub open spec fn answer_of(f: Final) -> Option<(u16, Seq<char>, Seq<char>)> {
    match f {
        Final::Response => None,
        Final::Upstream(_) => None,
        Final::Saturated { .. } => Some(
            (
                429,
                "all subscriptions for this model are out of quota; retry when the pool resets"@,
                "quota_exhausted"@,
            ),
        ),
        Final::NoAccounts => Some(
            (503, "no subscriptions are configured for this model"@, "no_accounts"@),
        ),
        Final::PoolExhausted => Some(
            (503, "pool exhausted: every subscription attempt failed"@, "pool_exhausted"@),
        ),
    }
}

/// The answer to a request that no account answered: its status and its body.
pub fn own_answer(f: &Final) -> (r: Option<(u16, Json)>)
    ensures
        match r {
            Some((status, body)) => answer_of(*f) matches Some((s, message, kind)) && s == status
                && body@ == error_view(message, kind),
            None => answer_of(*f) is None,
        },
{
    match f {
        Final::Response | Final::Upstream(_) => None,
        Final::Saturated { .. } => Some(
            (
                429,
                error_json(
                    "all subscriptions for this model are out of quota; retry when the pool resets",
                    "quota_exhausted",
                ),
            ),
        ),
        Final::NoAccounts => Some(
            (503, error_json("no subscriptions are configured for this model", "no_accounts")),
        ),
        Final::PoolExhausted => Some(
            (
                503,
                error_json("pool exhausted: every subscription attempt failed", "pool_exhausted"),
            ),
        ),
    }
}

/// The answer to a request whose body could not be read: too large, or not JSON.
pub fn bad_body(too_large: bool, error: &str) -> (r: (u16, Json))
    ensures
        r.0 == (if too_large {
            413u16
        } else {
            400u16
        }),
        r.1@ == error_view(
            (if too_large {
                "request body error: "@
            } else {
                "request body must be valid json: "@
            }) + error@,
            "invalid_request_error"@,
        ),
{
    if too_large {
        (413, error_json(join2("request body error: ", error).as_str(), "invalid_request_error"))
    } else {
        (
            400,
            error_json(
                join2("request body must be valid json: ", error).as_str(),
                "invalid_request_error",
            ),
        )
    }
}

/// The answer to a request without the key of the proxy.
pub fn unauthorized() -> (r: (u16, Json))
    ensures
        r.0 == 401,
        r.1@ == error_view("invalid or missing proxy api key"@, "authentication_error"@),
{
    (401, error_json("invalid or missing proxy api key", "authentication_error"))
}

// ---------------------------------------------------------------------------
// Bindings that are stored
// ---------------------------------------------------------------------------

/// The first binding of a session in a list.
pub open spec fn binding_for(s: Seq<BindingView>, key: Seq<char>) -> Option<BindingView>
    decreases s.len(),
{
    if s.len() == 0 {
        None
    } else if s[0].cache_key == key {
        Some(s[0])
    } else {
        binding_for(s.skip(1), key)
    }
}

/// The binding to store after a selection: that of its session, if it is new.
pub fn fresh_binding(pool: &PoolCore, selection: &Selection, sticky: Option<&str>) -> (r: Option<
    Binding,
>)
    requires
        pool.wf(),
    ensures
        match r {
            Some(b) => {
                &&& selection.decision == Decision::NewBinding || selection.decision
                    == Decision::StickyRebind
                &&& sticky matches Some(key) && binding_for(pool@.listed_bindings(), key@) == Some(
                    crate::pool::binding_view(b),
                )
            },
            None => {
                ||| selection.decision == Decision::StickyHit
                ||| selection.decision == Decision::Unsticky
                ||| sticky is None
                ||| binding_for(pool@.listed_bindings(), sticky->0@) is None
            },
        },
{
    match selection.decision {
        Decision::NewBinding | Decision::StickyRebind => {},
        _ => return None,
    }
    let key = match sticky {
        Some(k) => k,
        None => return None,
    };
    let list = pool.bindings();
    let ghost all = pool@.listed_bindings();
    assert(all.skip(0) =~= all);
    for i in 0..list.len()
        invariant
            crate::pool::binding_views(list@) == all,
            all == pool@.listed_bindings(),
            sticky == Some(key),
            selection.decision == Decision::NewBinding || selection.decision
                == Decision::StickyRebind,
            binding_for(all, key@) == binding_for(all.skip(i as int), key@),
    {
        assert(all[i as int] == crate::pool::binding_view(list@[i as int]));
        assert(all.skip(i as int)[0] == all[i as int]);
        assert(all.skip(i as int).skip(1) =~= all.skip(i + 1));
        if same(list[i].cache_key.as_str(), key) {
            return Some(list[i].clone());
        }
    }
    None
}

// ---------------------------------------------------------------------------
// The models of all backends
// ---------------------------------------------------------------------------

/// A model and the backend that it is listed under.
#[derive(Debug)]
pub struct ListedModel {
    pub model: ModelInfo,
    pub backend: BackendId,
}

pub struct ListedView {
    pub model: ModelView,
    pub backend: BackendId,
}

impl View for ListedModel {
    type V = ListedView;

    open spec fn view(&self) -> ListedView {
        ListedView { model: self.model@, backend: self.backend }
    }
}

pub open spec fn listed_views(s: Seq<ListedModel>) -> Seq<ListedView> {
    s.map_values(|m: ListedModel| m@)
}

/// The models of a catalog under their backend.
pub open spec fn under(s: Seq<ModelInfo>, backend: BackendId) -> Seq<ListedView> {
    s.map_values(|m: ModelInfo| ListedView { model: m@, backend })
}

/// The list with one model more: of two with one id the one with the larger
/// context counts, of equal ones the first.
pub open spec fn joined_by(m: Map<Seq<char>, ListedView>, x: ListedView) -> Map<
    Seq<char>,
    ListedView,
> {
    if m.contains_key(x.model.id) && x.model.context <= m[x.model.id].model.context {
        m
    } else {
        m.insert(x.model.id, x)
    }
}

/// The models of a list by id.
pub open spec fn merged(s: Seq<ListedView>) -> Map<Seq<char>, ListedView>
    decreases s.len(),
{
    if s.len() == 0 {
        Map::empty()
    } else {
        joined_by(merged(s.drop_last()), s.last())
    }
}

/// The list is in order of id and holds exactly the entries of the map.
pub open spec fn lists(s: Seq<ListedView>, m: Map<Seq<char>, ListedView>) -> bool {
    &&& forall|i: int, j: int|
        0 <= i < j < s.len() ==> below((#[trigger] s[i]).model.id, (#[trigger] s[j]).model.id)
    &&& forall|i: int|
        0 <= i < s.len() ==> m.contains_key((#[trigger] s[i]).model.id) && m[s[i].model.id] == s[i]
    &&& forall|k: Seq<char>| #[trigger] m.contains_key(k) ==> has_model(s, k)
}

/// The list has a model with this id.
pub open spec fn has_model(s: Seq<ListedView>, id: Seq<char>) -> bool {
    exists|i: int| 0 <= i < s.len() && s[i].model.id == id
}

fn add_model(list: &mut Vec<ListedModel>, x: ListedModel, Ghost(m): Ghost<Map<Seq<char>, ListedView>>)
    requires
        lists(listed_views(old(list)@), m),
    ensures
        lists(listed_views(final(list)@), joined_by(m, x@)),
{
    let ghost v = listed_views(list@);
    let mut at: usize = 0;
    while at < list.len() && is_below(list[at].model.id.as_str(), x.model.id.as_str())
        invariant
            v == listed_views(list@),
            at <= list@.len(),
            forall|i: int| 0 <= i < at ==> below((#[trigger] v[i]).model.id, x.model.id@),
        decreases list@.len() - at,
    {
        assert(v[at as int] == list@[at as int]@);
        at = at + 1;
    }
    let ghost id = x.model.id@;
    let ghost new = x@;
    if at < list.len() && same(list[at].model.id.as_str(), x.model.id.as_str()) {
        assert(v[at as int] == list@[at as int]@);
        if x.model.context > list[at].model.context {
            list.set(at, x);
            proof {
                let w = listed_views(list@);
                assert(w =~= v.update(at as int, new));
                let n = m.insert(id, new);
                assert forall|i: int| 0 <= i < w.len() implies n.contains_key(
                    (#[trigger] w[i]).model.id,
                ) && n[w[i].model.id] == w[i] by {
                    if i != at {
                        assert(w[i] == v[i]);
                        if i < at {
                            assert(below(v[i].model.id, v[at as int].model.id));
                        } else {
                            assert(below(v[at as int].model.id, v[i].model.id));
                        }
                        law_order_total(v[i].model.id, v[i].model.id);
                    }
                }
                assert forall|i: int, j: int| 0 <= i < j < w.len() implies below(
                    (#[trigger] w[i]).model.id,
                    (#[trigger] w[j]).model.id,
                ) by {
                    assert(below(v[i].model.id, v[j].model.id));
                }
                assert forall|k: Seq<char>| #[trigger] n.contains_key(k) implies has_model(w, k) by {
                    if k == id {
                        assert(w[at as int].model.id == k);
                    } else {
                        assert(has_model(v, k));
                        let i = choose|i: int| 0 <= i < v.len() && v[i].model.id == k;
                        assert(w[i].model.id == k);
                    }
                }
            }
        }
        return;
    }
    proof {
        if m.contains_key(id) {
            assert(has_model(v, id));
            let i = choose|i: int| 0 <= i < v.len() && v[i].model.id == id;
            law_order_total(id, id);
            if i < at {
                assert(below(v[i].model.id, id));
            } else {
                assert(v[at as int] == list@[at as int]@);
                if i > at {
                    assert(below(v[at as int].model.id, v[i].model.id));
                }
                law_order_total(v[at as int].model.id, id);
            }
        }
    }
    let ghost before = list@;
    list.insert(at, x);
    proof {
        let w = listed_views(list@);
        assert(w =~= v.insert(at as int, new));
        let n = m.insert(id, new);
        if at < before.len() {
            assert(v[at as int] == before[at as int]@);
            law_order_total(v[at as int].model.id, id);
        }
        assert forall|i: int, j: int| 0 <= i < j < w.len() implies below(
            (#[trigger] w[i]).model.id,
            (#[trigger] w[j]).model.id,
        ) by {
            if i == at {
                assert(w[j] == v[j - 1]);
                if j - 1 > at {
                    assert(below(v[at as int].model.id, v[j - 1].model.id));
                    law_order_transitive(id, v[at as int].model.id, v[j - 1].model.id);
                }
            } else if j == at {
                assert(below(v[i].model.id, id));
            } else if i < at && j < at {
                assert(below(v[i].model.id, v[j].model.id));
            } else if i < at {
                assert(below(v[i].model.id, v[j - 1].model.id));
            } else {
                assert(below(v[i - 1].model.id, v[j - 1].model.id));
            }
        }
        assert forall|i: int| 0 <= i < w.len() implies n.contains_key((#[trigger] w[i]).model.id)
            && n[w[i].model.id] == w[i] by {
            if i < at {
                assert(w[i] == v[i]);
                assert(m.contains_key(v[i].model.id));
            } else if i > at {
                assert(w[i] == v[i - 1]);
                assert(m.contains_key(v[i - 1].model.id));
            }
        }
        assert forall|k: Seq<char>| #[trigger] n.contains_key(k) implies has_model(w, k) by {
            if k == id {
                assert(w[at as int].model.id == k);
            } else {
                assert(has_model(v, k));
                let i = choose|i: int| 0 <= i < v.len() && v[i].model.id == k;
                if i < at {
                    assert(w[i].model.id == k);
                } else {
                    assert(w[i + 1].model.id == k);
                }
            }
        }
    }
}

fn add_all(
    list: &mut Vec<ListedModel>,
    catalog: &Vec<ModelInfo>,
    backend: BackendId,
    Ghost(done): Ghost<Seq<ListedView>>,
)
    requires
        lists(listed_views(old(list)@), merged(done)),
    ensures
        lists(listed_views(final(list)@), merged(done + under(catalog@, backend))),
{
    let ghost all = under(catalog@, backend);
    assert(done + all.take(0) =~= done);
    for i in 0..catalog.len()
        invariant
            all == under(catalog@, backend),
            lists(listed_views(list@), merged(done + all.take(i as int))),
    {
        proof {
            let s = done + all.take(i + 1);
            assert(s.drop_last() =~= done + all.take(i as int));
            assert(s.last() == all[i as int]);
        }
        let x = ListedModel { model: catalog[i].clone(), backend };
        add_model(list, x, Ghost(merged(done + all.take(i as int))));
    }
    assert(all.take(all.len() as int) =~= all);
}

/// The models of both catalogs in order of id, each once.
pub fn models(codex: &Vec<ModelInfo>, copilot: &Vec<ModelInfo>) -> (r: Vec<ListedModel>)
    ensures
        lists(
            listed_views(r@),
            merged(under(codex@, BackendId::Codex) + under(copilot@, BackendId::Copilot)),
        ),
{
    let mut list: Vec<ListedModel> = Vec::new();
    let ghost none = Seq::<ListedView>::empty();
    assert(listed_views(list@) =~= none);
    add_all(&mut list, codex, BackendId::Codex, Ghost(none));
    let ghost first = under(codex@, BackendId::Codex);
    assert(none + first =~= first);
    add_all(&mut list, copilot, BackendId::Copilot, Ghost(first));
    list
}

/// Every model of a catalog is listed, with the largest context that any catalog
/// gives it.
pub proof fn law_listed_model_has_largest_context(s: Seq<ListedView>, i: int)
    requires
        0 <= i < s.len(),
    ensures
        merged(s).contains_key(s[i].model.id),
        merged(s)[s[i].model.id].model.context >= s[i].model.context,
    decreases s.len(),
{
    if i < s.len() - 1 {
        law_listed_model_has_largest_context(s.drop_last(), i);
    }
}

} // verus!
