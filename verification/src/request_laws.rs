//! What becomes of a request on its way through the pool, said of the accounts that
//! are tried and of their answers.
use crate::json::JsonView;
use crate::models::{BackendId, ModelInfo, RequestLogEntry};
use crate::outcome_laws::says;
use crate::pool::{BindingView, PoolView, SelectError, SelectionView};
use crate::proxy::{
    adds_renewal, admits, answer_of, binding_for, error_view, is_stream, latest, logs_attempt,
    merged, model_asked, record_of, renewed_ids, renewed_token, sticky_key, type_or_json, under,
    verdict_of, Ask, AttemptRun, Final, FinalView, InferActionView, InferEvent, InferPhase,
    InferView, ListedView, PassView, Passthrough, Renewal, RequestContext, UsageSupport, Verdict,
};
use crate::text::{has_substring, occurs_at, opt_view};
use vstd::prelude::*;
use vstd::utf8::encode_utf8;

verus! {

// ---------------------------------------------------------------------------
// Attempts
// ---------------------------------------------------------------------------

/// The account that the pool gives a request, if it gives one.
pub open spec fn given(pool: PoolView, ask: Ask) -> Option<SelectionView> {
    match pool.selected(ask.now, ask.sticky, ask.model).0 {
        Ok(s) => Some(s),
        Err(_) => None,
    }
}

/// The number of accounts of the pool, at least one.
pub open spec fn account_number(pool: PoolView) -> int {
    if pool.accounts.dom().len() == 0 {
        1
    } else {
        pool.accounts.dom().len() as int
    }
}

/// An attempt that failed, and the pool and the time after it.
pub struct Failure {
    pub answer: Option<Passthrough>,
    pub pool: PoolView,
    pub ask: Ask,
}

/// A request after its first account was selected and some attempts failed, and
/// what it does next.
pub open spec fn after_failures(
    recovered: bool,
    pool: PoolView,
    ask: Ask,
    failures: Seq<Failure>,
) -> (InferView, InferActionView)
    decreases failures.len(),
{
    if failures.len() == 0 {
        let begun = InferView::fresh().after(InferEvent::Begin, pool, ask).0;
        let (next, action, _) = begun.after(InferEvent::ResetDone(recovered), pool, ask);
        (next, action)
    } else {
        let f = failures.last();
        let before = after_failures(recovered, pool, ask, failures.drop_last()).0;
        let (next, action, _) = before.after(InferEvent::FailedOver(f.answer), f.pool, f.ask);
        (next, action)
    }
}

/// After each failed attempt the pool has an account to give.
pub open spec fn always_given(failures: Seq<Failure>) -> bool {
    forall|i: int|
        0 <= i < failures.len() ==> given((#[trigger] failures[i]).pool, failures[i].ask) is Some
}

/// The last answer that came from upstream.
pub open spec fn last_answer(failures: Seq<Failure>) -> Option<PassView>
    decreases failures.len(),
{
    if failures.len() == 0 {
        None
    } else {
        match failures.last().answer {
            Some(p) => Some(p@),
            None => last_answer(failures.drop_last()),
        }
    }
}

proof fn lemma_attempts(recovered: bool, pool: PoolView, ask: Ask, failures: Seq<Failure>)
    requires
        given(pool, ask) is Some,
        always_given(failures),
        failures.len() < account_number(pool),
    ensures
        ({
            let (run, action) = after_failures(recovered, pool, ask, failures);
            &&& run.phase == InferPhase::Attempt
            &&& run.attempts == failures.len() + 1
            &&& run.max_attempts == account_number(pool)
            &&& run.accounts == account_number(pool)
            &&& !run.reset_tried
            &&& run.last == last_answer(failures)
            &&& action == InferActionView::TryAccount(
                if failures.len() == 0 {
                    given(pool, ask)->0
                } else {
                    given(failures.last().pool, failures.last().ask)->0
                },
            )
        }),
    decreases failures.len(),
{
    if failures.len() > 0 {
        let head = failures.drop_last();
        assert forall|i: int| 0 <= i < head.len() implies given(
            (#[trigger] head[i]).pool,
            head[i].ask,
        ) is Some by {
            assert(head[i] == failures[i]);
        }
        lemma_attempts(recovered, pool, ask, head);
        assert(failures[failures.len() - 1] == failures.last());
    }
}

/// A request begins with a look for a banked reset, whatever the pool.
pub proof fn law_request_looks_for_a_reset_first(pool: PoolView, ask: Ask)
    ensures
        InferView::fresh().after(InferEvent::Begin, pool, ask).1 is TryReset,
        InferView::fresh().after(InferEvent::Begin, pool, ask).2 == pool,
{
}

/// As many attempts are made as the pool has accounts: while fewer of them failed,
/// and the pool has an account to give, that account is tried next.
pub proof fn law_every_account_may_be_tried(
    recovered: bool,
    pool: PoolView,
    ask: Ask,
    failures: Seq<Failure>,
)
    requires
        given(pool, ask) is Some,
        always_given(failures),
        failures.len() == 0 || failures.len() < pool.accounts.dom().len(),
    ensures
        after_failures(recovered, pool, ask, failures).1 == InferActionView::TryAccount(
            if failures.len() == 0 {
                given(pool, ask)->0
            } else {
                given(failures.last().pool, failures.last().ask)->0
            },
        ),
{
    lemma_attempts(recovered, pool, ask, failures);
}

/// When as many attempts failed as the pool had accounts, a reset is tried once.
/// Only if it brings an account back is one more attempt made, and none after that.
/// Then the client gets the last answer that came from upstream; without one it is
/// told that the pool is exhausted.
pub proof fn law_last_answer_goes_to_the_client(
    recovered: bool,
    pool: PoolView,
    ask: Ask,
    failures: Seq<Failure>,
    later: PoolView,
    then: Ask,
    more: Failure,
)
    requires
        given(pool, ask) is Some,
        always_given(failures),
        failures.len() == account_number(pool),
        given(later, then) is Some,
        given(more.pool, more.ask) is Some,
    ensures
        ({
            let (run, action) = after_failures(recovered, pool, ask, failures);
            let told = |answer: Option<PassView>|
                InferActionView::Finish(
                    match answer {
                        Some(p) => FinalView::Upstream(p),
                        None => FinalView::PoolExhausted,
                    },
                );
            let (_, end, _) = run.after(InferEvent::ResetDone(false), later, then);
            let (extra, tried, _) = run.after(InferEvent::ResetDone(true), later, then);
            let (_, over, _) = extra.after(
                InferEvent::FailedOver(more.answer),
                more.pool,
                more.ask,
            );
            &&& action is TryReset
            &&& end == told(last_answer(failures))
            &&& tried == InferActionView::TryAccount(given(later, then)->0)
            &&& over == told(last_answer(failures.push(more)))
        }),
{
    let head = failures.drop_last();
    assert forall|i: int| 0 <= i < head.len() implies given(
        (#[trigger] head[i]).pool,
        head[i].ask,
    ) is Some by {
        assert(head[i] == failures[i]);
    }
    lemma_attempts(recovered, pool, ask, head);
    assert(failures.push(more).drop_last() =~= failures);
}

/// A pool that is out of quota until a time ends the request with that time, once
/// a reset was tried for it and brought nothing back. If it brought an account
/// back, that one is tried. This costs no attempt.
pub proof fn law_request_out_of_quota_tries_one_reset(
    run: InferView,
    p: Option<Passthrough>,
    pool: PoolView,
    ask: Ask,
    until_ms: i64,
    later: PoolView,
    then: Ask,
)
    requires
        run.valid(),
        run.phase == InferPhase::Attempt,
        run.attempts < run.max_attempts,
        pool.selected(ask.now, ask.sticky, ask.model).0 == Err::<SelectionView, SelectError>(
            SelectError::Saturated { until_ms },
        ),
    ensures
        ({
            let (next, action, _) = run.after(InferEvent::FailedOver(p), pool, ask);
            let (_, end, _) = next.after(InferEvent::ResetDone(false), later, then);
            let (tried, again, _) = next.after(InferEvent::ResetDone(true), later, then);
            let told = InferActionView::Finish(FinalView::Saturated { until_ms });
            &&& run.reset_tried ==> action == told
            &&& !run.reset_tried ==> action is TryReset && end == told
            &&& !run.reset_tried && given(later, then) is Some ==> again
                == InferActionView::TryAccount(given(later, then)->0) && tried.attempts
                == run.attempts + 1
        }),
{
}

/// A request for which the pool knows no account is answered with the last answer
/// that came from upstream; without one, that there is no account.
pub proof fn law_request_without_accounts_is_answered(
    run: InferView,
    p: Option<Passthrough>,
    pool: PoolView,
    ask: Ask,
    recovered: bool,
)
    requires
        run.valid(),
        run.phase == InferPhase::Attempt,
        run.attempts < run.max_attempts,
        pool.selected(ask.now, ask.sticky, ask.model).0 == Err::<SelectionView, SelectError>(
            SelectError::NoAccounts,
        ),
    ensures
        run.after(InferEvent::FailedOver(p), pool, ask).1 == InferActionView::Finish(
            match p {
                Some(q) => FinalView::Upstream(q@),
                None => match run.last {
                    Some(q) => FinalView::Upstream(q),
                    None => FinalView::NoAccounts,
                },
            },
        ),
        InferView::fresh().after(InferEvent::Begin, pool, ask).0.after(
            InferEvent::ResetDone(recovered),
            pool,
            ask,
        ).1 == InferActionView::Finish(FinalView::NoAccounts),
{
}

/// What the client is told where no account answered: 429 while the pool is out of
/// quota, 503 where there is no account and where every attempt failed. An
/// answer of an account is not replaced.
pub proof fn law_own_answers_name_the_reason(f: Final)
    ensures
        f is Saturated ==> (answer_of(f) matches Some((status, _, kind)) && status == 429 && kind
            == "quota_exhausted"@),
        f is NoAccounts ==> (answer_of(f) matches Some((status, _, kind)) && status == 503 && kind
            == "no_accounts"@),
        f is PoolExhausted ==> (answer_of(f) matches Some((status, _, kind)) && status == 503
            && kind == "pool_exhausted"@),
        f is Response || f is Upstream ==> answer_of(f) is None,
{
}

/// The body of such an answer has the message and the kind of its error.
pub proof fn law_error_body_has_message_and_kind(message: Seq<char>, kind: Seq<char>)
    ensures
        error_view(message, kind) matches JsonView::Object(m) && m.contains_key("error"@) && says(
            m["error"@],
            "message"@,
            message,
        ) && says(m["error"@], "type"@, kind),
{
    reveal_strlit("message");
    reveal_strlit("type");
    assert("message"@.len() != "type"@.len());
}

// ---------------------------------------------------------------------------
// Answers
// ---------------------------------------------------------------------------

/// The text has the word in it.
pub open spec fn has_word(text: Seq<char>, word: Seq<char>) -> bool {
    exists|at: int|
        0 <= at <= text.len() - word.len() && #[trigger] text.subrange(at, at + word.len()) == word
}

proof fn lemma_word(text: Seq<char>, word: Seq<char>)
    ensures
        has_substring(text, word) <==> has_word(text, word),
{
    if has_substring(text, word) {
        let at = choose|at: int| occurs_at(text, word, at);
        assert(text.subrange(at, at + word.len()) == word);
    }
    if has_word(text, word) {
        let at = choose|at: int|
            0 <= at <= text.len() - word.len() && #[trigger] text.subrange(at, at + word.len())
                == word;
        assert(occurs_at(text, word, at));
    }
}

/// What an answer leads to: a success goes to the client. Where the usage option was
/// sent, a 400 or 422 that names the option has the request sent without it, and
/// any other is handed back. A 401 or 403 has the credential renewed once. Any
/// other answer means that the account failed.
pub proof fn law_answer_leads_to_one_thing(
    status: u16,
    text: Seq<char>,
    asked: bool,
    may_refresh: bool,
)
    ensures
        ({
            let v = verdict_of(status, text, asked, may_refresh);
            let names = has_word(text, "stream_options"@) || has_word(text, "include_usage"@);
            let unclear = asked && (status == 400 || status == 422);
            let rejected = status == 401 || status == 403;
            &&& v == Verdict::Stream <==> 200 <= status <= 299
            &&& v == Verdict::Resend <==> unclear && names
            &&& v == Verdict::Reject <==> unclear && !names
            &&& v == Verdict::Refresh <==> rejected && may_refresh
            &&& v == Verdict::Fail <==> !(200 <= status <= 299) && !unclear && !(rejected
                && may_refresh)
        }),
{
    lemma_word(text, "stream_options"@);
    lemma_word(text, "include_usage"@);
}

/// A backend that rejects the usage option is known as one that does; the other is
/// not affected.
pub proof fn law_rejection_of_the_option_is_remembered(s: UsageSupport, b: BackendId, other: BackendId)
    ensures
        s.marked(b).rejects(b),
        other != b ==> s.marked(b).rejects(other) == s.rejects(other),
        s.rejects(BackendId::Codex) == s.codex_rejects,
        s.rejects(BackendId::Copilot) == s.copilot_rejects,
{
}

/// The line of the history that an attempt leaves names the request, the model, the
/// account with its backend and label, the session, the status, and how long the
/// attempt took and when it ended.
pub proof fn law_history_tells_the_attempt(
    e: RequestLogEntry,
    ctx: RequestContext,
    selection: SelectionView,
    label: Seq<char>,
    status: u16,
    ts: int,
    duration_ms: u64,
)
    requires
        logs_attempt(e, ctx, selection, label, status, ts, duration_ms),
    ensures
        e.request_id@ == ctx.request_id@,
        e.model@ == ctx.model@,
        e.account is Some && e.account->0@ == selection.account_id,
        e.label is Some && e.label->0@ == label,
        e.backend is Some && e.backend->0@ == (match selection.backend {
            BackendId::Codex => "codex"@,
            BackendId::Copilot => "copilot"@,
        }),
        e.sticky@ == (match ctx.sticky {
            Some(s) => s@,
            None => "none"@,
        }),
        e.status == status,
        e.ts == ts,
        e.duration_ms == duration_ms,
{
}

/// The record of an attempt names the request, its endpoint, model and session, the
/// account with its backend and label, the status and the time. The counts are
/// unknown until they are found.
pub proof fn law_record_tells_the_attempt(
    ctx: RequestContext,
    selection: SelectionView,
    label: Seq<char>,
    status: u16,
    ts: int,
)
    ensures
        ({
            let r = record_of(ctx, selection, label, status, ts);
            &&& r.request_id == ctx.request_id@ && r.endpoint == ctx.path@ && r.model == ctx.model@
            &&& r.account_id == selection.account_id && r.account_label == label
            &&& r.backend == (match selection.backend {
                BackendId::Codex => "codex"@,
                BackendId::Copilot => "copilot"@,
            })
            &&& r.cache_key == opt_view(ctx.sticky)
            &&& r.status == status && r.ts == ts
            &&& r.input_tokens is None && r.output_tokens is None
        }),
{
}

/// The history keeps the newest lines, as they came: as many as there are, and two
/// hundred at most.
pub proof fn law_history_keeps_the_newest(s: Seq<RequestLogEntry>, i: int)
    ensures
        latest(s).len() == (if s.len() < 200 {
            s.len() as int
        } else {
            200
        }),
        0 <= i < latest(s).len() ==> latest(s)[latest(s).len() - 1 - i] == s[s.len() - 1 - i],
{
}

/// The first binding of a session is the one that is found.
pub proof fn law_binding_of_a_session_is_found(s: Seq<BindingView>, key: Seq<char>)
    ensures
        match binding_for(s, key) {
            Some(b) => s.contains(b) && b.cache_key == key,
            None => forall|i: int| 0 <= i < s.len() ==> (#[trigger] s[i]).cache_key != key,
        },
    decreases s.len(),
{
    if s.len() > 0 && s[0].cache_key != key {
        let rest = s.skip(1);
        law_binding_of_a_session_is_found(rest, key);
        match binding_for(rest, key) {
            Some(b) => {
                let i = choose|i: int| 0 <= i < rest.len() && rest[i] == b;
                assert(s[i + 1] == b);
            },
            None => {
                assert forall|i: int| 0 <= i < s.len() implies (#[trigger] s[i]).cache_key
                    != key by {
                    if i > 0 {
                        assert(rest[i - 1] == s[i]);
                    }
                }
            },
        }
    } else if s.len() > 0 {
        assert(s[0] == binding_for(s, key)->0);
    }
}

/// The newest token that the credential of an account was renewed to is used.
pub proof fn law_newest_token_is_used(s: Seq<Renewal>, id: Seq<char>, i: int)
    requires
        0 <= i < s.len(),
        s[i].account_id@ == id,
        s[i].token is Some,
        forall|j: int|
            i < j < s.len() ==> (#[trigger] s[j]).account_id@ != id || s[j].token is None,
    ensures
        renewed_token(s, id) == Some(s[i].token->0@),
    decreases s.len(),
{
    if i < s.len() - 1 {
        let head = s.drop_last();
        assert(s[s.len() - 1] == s.last());
        assert forall|j: int| i < j < head.len() implies (#[trigger] head[j]).account_id@ != id
            || head[j].token is None by {
            assert(head[j] == s[j]);
        }
        law_newest_token_is_used(head, id, i);
    }
}

// ---------------------------------------------------------------------------
// Requests
// ---------------------------------------------------------------------------

/// The value is an object with something under the key.
pub open spec fn has_member(v: JsonView, key: Seq<char>) -> bool {
    v matches JsonView::Object(m) && m.contains_key(key)
}

/// The session of a request is the text of `prompt_cache_key`; where the body has no
/// such member, that of `promptCacheKey`; and where that is no text, the one that
/// the header names. An empty text is no session.
pub proof fn law_session_is_named_by_body_or_header(
    body: JsonView,
    header: Option<Seq<char>>,
    s: Seq<char>,
)
    ensures
        ({
            let r = sticky_key(body, header);
            let chosen = if s.len() > 0 {
                Some(s)
            } else {
                None
            };
            let from_header = match header {
                Some(h) => if h.len() > 0 {
                    Some(h)
                } else {
                    None
                },
                None => None,
            };
            let snake = has_member(body, "prompt_cache_key"@);
            let camel = has_member(body, "promptCacheKey"@);
            &&& says(body, "prompt_cache_key"@, s) ==> r == chosen
            &&& !snake && says(body, "promptCacheKey"@, s) ==> r == chosen
            &&& snake && (forall|t: Seq<char>| !#[trigger] says(body, "prompt_cache_key"@, t)) ==> r
                == from_header
            &&& !snake && camel && (forall|t: Seq<char>|
                !#[trigger] says(body, "promptCacheKey"@, t)) ==> r == from_header
            &&& !snake && !camel ==> r == from_header
        }),
{
    if let Some(JsonView::Text(t)) = body.get("prompt_cache_key"@) {
        assert(says(body, "prompt_cache_key"@, t));
    }
    if let Some(JsonView::Text(t)) = body.get("promptCacheKey"@) {
        assert(says(body, "promptCacheKey"@, t));
    }
}

/// The model of a request is the text of its `model`; without one it is empty.
pub proof fn law_model_is_named_by_the_body(body: JsonView, s: Seq<char>)
    ensures
        says(body, "model"@, s) ==> model_asked(body) == s,
        (forall|t: Seq<char>| !#[trigger] says(body, "model"@, t)) ==> model_asked(body).len() == 0,
{
    reveal_strlit("");
    if let Some(JsonView::Text(t)) = body.get("model"@) {
        assert(says(body, "model"@, t));
    }
}

/// An answer is read as a stream of events if the request asks for one or the
/// answer says that it is one.
pub proof fn law_stream_is_asked_for_or_announced(body: JsonView, content_type: Seq<u8>)
    ensures
        is_stream(body, content_type) <==> (body matches JsonView::Object(m) && m.contains_key(
            "stream"@,
        ) && m["stream"@] == JsonView::Bool(true)) || encode_utf8(
            "text/event-stream"@,
        ).is_prefix_of(content_type),
{
    reveal_strlit("text/event-stream");
    let mark = crate::proxy::event_stream();
    vstd::utf8::is_ascii_chars_encode_utf8("text/event-stream"@);
    assert(encode_utf8("text/event-stream"@) =~= mark);
    if content_type.len() >= 17 {
        assert(content_type.subrange(0, 17) =~= content_type.take(17));
    }
}

/// Without a configured key every request is admitted; with one, exactly those that
/// carry it as a bearer token.
pub proof fn law_key_guards_the_proxy(key: Seq<char>, header: Option<Seq<char>>)
    ensures
        admits(None, header),
        admits(Some(key), header) <==> header == Some("Bearer "@ + key),
{
    crate::proxy::law_gate_admits_only_the_key(key, header);
}

/// The entry of a list has this id, and no entry with that id has a larger context,
/// nor as large a one before it.
pub open spec fn has_largest(s: Seq<ListedView>, id: Seq<char>, i: int) -> bool {
    &&& 0 <= i < s.len()
    &&& s[i].model.id == id
    &&& forall|j: int|
        0 <= j < s.len() && (#[trigger] s[j]).model.id == id ==> s[j].model.context
            <= s[i].model.context && (s[j].model.context == s[i].model.context ==> i <= j)
}

/// A model is listed exactly if a catalog has it. It is listed as the catalog has
/// it that gives it the larger context, and as Codex has it where both give the
/// same.
pub proof fn law_listed_model_is_one_of_a_catalog(s: Seq<ListedView>, id: Seq<char>)
    ensures
        merged(s).contains_key(id) <==> exists|i: int|
            0 <= i < s.len() && (#[trigger] s[i]).model.id == id,
        merged(s).contains_key(id) ==> exists|i: int| #[trigger]
            has_largest(s, id, i) && s[i] == merged(s)[id],
    decreases s.len(),
{
    if s.len() > 0 {
        let head = s.drop_last();
        let n = s.len() - 1;
        law_listed_model_is_one_of_a_catalog(head, id);
        assert(s[n] == s.last());
        if merged(head).contains_key(id) {
            let i = choose|i: int| #[trigger]
                has_largest(head, id, i) && head[i] == merged(head)[id];
            lemma_largest(s, id, i);
        } else {
            assert forall|j: int| 0 <= j < n implies (#[trigger] s[j]).model.id != id by {
                assert(head[j] == s[j]);
            }
            if s[n].model.id == id {
                assert(has_largest(s, id, n));
            }
        }
        if exists|i: int| 0 <= i < s.len() && (#[trigger] s[i]).model.id == id {
            let i = choose|i: int| 0 <= i < s.len() && (#[trigger] s[i]).model.id == id;
            if i < n {
                assert(head[i] == s[i]);
            }
        }
    }
}

proof fn lemma_largest(s: Seq<ListedView>, id: Seq<char>, i: int)
    requires
        s.len() > 0,
        has_largest(s.drop_last(), id, i),
    ensures
        s.last().model.id == id && s.last().model.context > s[i].model.context ==> has_largest(
            s,
            id,
            s.len() - 1,
        ),
        !(s.last().model.id == id && s.last().model.context > s[i].model.context) ==> has_largest(
            s,
            id,
            i,
        ),
        s[i] == s.drop_last()[i],
{
    let head = s.drop_last();
    assert forall|j: int| 0 <= j < s.len() - 1 && (#[trigger] s[j]).model.id
        == id implies s[j].model.context <= s[i].model.context && (s[j].model.context
        == s[i].model.context ==> i <= j) by {
        assert(head[j] == s[j]);
    }
}

/// A request that finds the pool out of quota at once has one reset tried, and is
/// told the earliest end where that brings nothing back; an account that it
/// brings back is tried.
pub proof fn law_first_selection_out_of_quota_tries_one_reset(
    recovered: bool,
    pool: PoolView,
    ask: Ask,
    until_ms: i64,
    later: PoolView,
    then: Ask,
)
    requires
        pool.selected(ask.now, ask.sticky, ask.model).0 == Err::<SelectionView, SelectError>(
            SelectError::Saturated { until_ms },
        ),
    ensures
        ({
            let (run, action) = after_failures(recovered, pool, ask, Seq::empty());
            &&& action is TryReset
            &&& run.after(InferEvent::ResetDone(false), later, then).1 == InferActionView::Finish(
                FinalView::Saturated { until_ms },
            )
            &&& given(later, then) is Some ==> run.after(
                InferEvent::ResetDone(true),
                later,
                then,
            ).1 == InferActionView::TryAccount(given(later, then)->0)
        }),
{
}

/// When no attempt and no reset is left, a pool that is out of quota is what the
/// client is told, before any upstream answer.
pub proof fn law_exhausted_pool_tells_its_quota(
    run: InferView,
    p: Option<Passthrough>,
    pool: PoolView,
    ask: Ask,
    until_ms: i64,
)
    requires
        run.valid(),
        run.phase == InferPhase::Attempt,
        run.attempts == run.max_attempts,
        run.reset_tried,
        pool.selected(ask.now, ask.sticky, ask.model).0 == Err::<SelectionView, SelectError>(
            SelectError::Saturated { until_ms },
        ),
    ensures
        run.after(InferEvent::FailedOver(p), pool, ask).1 == InferActionView::Finish(
            FinalView::Saturated { until_ms },
        ),
{
}

/// Where a request selects, the pool is left as that selection leaves it.
pub proof fn law_request_leaves_the_pool_as_selected(
    run: InferView,
    event: InferEvent,
    pool: PoolView,
    ask: Ask,
)
    requires
        run.valid(),
        run.expects(event),
    ensures
        ({
            let (_, action, after) = run.after(event, pool, ask);
            let chosen = pool.selected(ask.now, ask.sticky, ask.model).1;
            &&& after == pool || after == chosen
            &&& action is TryAccount ==> after == chosen
        }),
{
}

/// An answer that is kept for the client is kept with its status, its type and its
/// text.
pub proof fn law_kept_answer_is_whole(
    run: AttemptRun,
    status: u16,
    content_type: Seq<char>,
    body: Seq<char>,
)
    requires
        run.keeps(status, content_type, body),
    ensures
        run.rejected is Some && run.rejected->0.status == status && run.rejected->0.content_type@
            == content_type && run.rejected->0.body@ == body,
{
}

/// An answer without a type counts as JSON.
pub proof fn law_answer_without_type_is_json(t: Seq<char>)
    ensures
        type_or_json(Some(t)) == t,
        type_or_json(None) == "application/json"@,
{
}

/// A credential that was rejected or renewed is noted for its account, behind what
/// was noted before.
pub proof fn law_renewals_are_noted_in_order(
    before: Seq<Renewal>,
    after: Seq<Renewal>,
    id: Seq<char>,
    token: Option<Seq<char>>,
    i: int,
)
    requires
        adds_renewal(before, after, id, token),
    ensures
        after.len() == before.len() + 1,
        0 <= i < before.len() ==> after[i] == before[i],
        after[before.len() as int].account_id@ == id,
        token is Some ==> after[before.len() as int].token is Some
            && after[before.len() as int].token->0@ == token->0,
        token is None ==> after[before.len() as int].token is None,
        renewed_ids(after) == renewed_ids(before).push(id),
{
    assert forall|j: int| 0 <= j < before.len() implies #[trigger] after[j] == before[j] by {
        assert(after.drop_last()[j] == before[j]);
    }
    assert(renewed_ids(after) =~= renewed_ids(before).push(id));
}

/// The models of a catalog are listed under its backend, as they are.
pub proof fn law_catalog_is_listed_under_its_backend(
    s: Seq<ModelInfo>,
    b: BackendId,
    i: int,
)
    requires
        0 <= i < s.len(),
    ensures
        under(s, b).len() == s.len(),
        under(s, b)[i].backend == b,
        under(s, b)[i].model.id == s[i].id@,
        under(s, b)[i].model.name == s[i].name@,
        under(s, b)[i].model.context == s[i].context,
        under(s, b)[i].model.input == s[i].input,
        under(s, b)[i].model.output == s[i].output,
{
}

/// The answer of upstream that a request has after an attempt failed.
pub open spec fn newer(run: InferView, p: Option<Passthrough>) -> Option<PassView> {
    match p {
        Some(q) => Some(q@),
        None => run.last,
    }
}

/// The upstream answer, else what is told without one.
pub open spec fn answer_or(p: Option<PassView>, f: FinalView) -> InferActionView {
    InferActionView::Finish(
        match p {
            Some(q) => FinalView::Upstream(q),
            None => f,
        },
    )
}

/// In every state of a request, a failed attempt with attempts left is followed by
/// one on the account that the pool gives, and counts as one; nothing else of the
/// request changes but the last upstream answer.
pub proof fn law_failed_attempt_is_followed_by_another(
    run: InferView,
    p: Option<Passthrough>,
    pool: PoolView,
    ask: Ask,
)
    requires
        run.valid(),
        run.phase == InferPhase::Attempt,
        run.attempts < run.max_attempts,
        given(pool, ask) is Some,
    ensures
        ({
            let (next, action, _) = run.after(InferEvent::FailedOver(p), pool, ask);
            &&& action == InferActionView::TryAccount(given(pool, ask)->0)
            &&& next.phase == InferPhase::Attempt
            &&& next.attempts == run.attempts + 1
            &&& next.max_attempts == run.max_attempts && next.accounts == run.accounts
            &&& next.reset_tried == run.reset_tried
            &&& next.last == newer(run, p)
        }),
{
}

/// In every state of a request, a failed attempt with no attempts left has a reset
/// tried, if none was; else the request ends with the last upstream answer.
pub proof fn law_last_failed_attempt_ends_the_request(
    run: InferView,
    p: Option<Passthrough>,
    pool: PoolView,
    ask: Ask,
)
    requires
        run.valid(),
        run.phase == InferPhase::Attempt,
        run.attempts == run.max_attempts,
    ensures
        ({
            let (next, action, after) = run.after(InferEvent::FailedOver(p), pool, ask);
            let choice = pool.selected(ask.now, ask.sticky, ask.model).0;
            &&& !run.reset_tried ==> action is TryReset && after == pool && next.last == newer(
                run,
                p,
            ) && next.phase == InferPhase::ResetForMore && next.attempts == run.attempts
                && next.max_attempts == run.max_attempts
            &&& run.reset_tried && !(choice matches Err(SelectError::Saturated { .. })) ==> action
                == answer_or(newer(run, p), FinalView::PoolExhausted)
        }),
{
}

/// After the reset for one more attempt, an account that came back gives one more;
/// it is made on the account that the pool gives. Else the request ends.
pub proof fn law_reset_for_more_gives_one_attempt(run: InferView, pool: PoolView, ask: Ask)
    requires
        run.valid(),
        run.phase == InferPhase::ResetForMore,
    ensures
        ({
            let choice = pool.selected(ask.now, ask.sticky, ask.model).0;
            let (more, tried, _) = run.after(InferEvent::ResetDone(true), pool, ask);
            let (_, ended, _) = run.after(InferEvent::ResetDone(false), pool, ask);
            &&& choice matches Ok(s) ==> tried == InferActionView::TryAccount(s) && more.attempts
                == run.attempts + 1 && more.attempts == more.max_attempts && more.reset_tried
                && more.last == run.last
            &&& choice matches Err(SelectError::Saturated { until_ms }) ==> tried
                == InferActionView::Finish(FinalView::Saturated { until_ms }) && ended
                == InferActionView::Finish(FinalView::Saturated { until_ms })
            &&& choice == Err::<SelectionView, SelectError>(SelectError::NoAccounts) ==> tried
                == answer_or(run.last, FinalView::NoAccounts)
            &&& !(choice matches Err(SelectError::Saturated { .. })) ==> ended == answer_or(
                run.last,
                FinalView::PoolExhausted,
            )
        }),
{
}

/// After the reset for a pool out of quota, what the pool then gives decides; with
/// nothing recovered the request is told the time that it was told before.
pub proof fn law_reset_for_choice_has_the_pool_decide(
    run: InferView,
    pool: PoolView,
    ask: Ask,
    until_ms: i64,
)
    requires
        run.valid(),
        run.phase == (InferPhase::ResetForChoice { until_ms }),
    ensures
        ({
            let choice = pool.selected(ask.now, ask.sticky, ask.model).0;
            let (next, tried, _) = run.after(InferEvent::ResetDone(true), pool, ask);
            let (_, ended, after) = run.after(InferEvent::ResetDone(false), pool, ask);
            &&& choice matches Ok(s) ==> tried == InferActionView::TryAccount(s) && next.attempts
                == run.attempts && next.max_attempts == run.max_attempts && next.reset_tried
                && next.last == run.last && next.phase == InferPhase::Attempt
            &&& choice matches Err(SelectError::Saturated { until_ms }) ==> tried
                == InferActionView::Finish(FinalView::Saturated { until_ms })
            &&& choice == Err::<SelectionView, SelectError>(SelectError::NoAccounts) ==> tried
                == answer_or(run.last, FinalView::NoAccounts)
            &&& ended == InferActionView::Finish(FinalView::Saturated { until_ms }) && after == pool
        }),
{
}

} // verus!
