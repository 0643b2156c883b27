//! What is sent upstream, and what is read of the answers of the issuers, said of
//! the account, the token and the members of the documents.
use crate::codex::{
    claimed_account, claimed_identity, claimed_residency, either, label_of, lifetime_fits,
    lifetime_secs, poll_interval_secs, Claims, CodexBackend,
};
use crate::copilot::{
    domain_of, has_image, placed, shows_image, usable_model, usable_models, user_named, wait_of,
    CopilotBackend, Step,
};
use crate::headers::{fields, is_value_text};
use crate::json::{json_text, parsed_json, JsonView};
use crate::models::{Account, ModelView};
use crate::outcome_laws::{says, tells};
use crate::provider::{Backend, Fields};
use crate::proxy::{body_sent, common_fields, is_outbound, Outbound, RequestContext};
use crate::text::{
    below, dec, has_prefix, has_suffix, lower, opt_view, parsed_u64, trim_end_of, trim_start_of,
};
use vstd::prelude::*;
use vstd::utf8::encode_utf8;

verus! {

/// The one value under a header is this text.
pub open spec fn carries(f: Fields, name: Seq<char>, value: Seq<char>) -> bool {
    f.contains_key(lower(name)) && f[lower(name)] == seq![encode_utf8(value)]
}

/// The header holds the text if there is one and a header can hold it; else it is
/// as it was.
pub open spec fn carries_if(
    f: Fields,
    before: Fields,
    name: Seq<char>,
    value: Option<Seq<char>>,
) -> bool {
    if value is Some && is_value_text(value->0) {
        carries(f, name, value->0)
    } else {
        unchanged(f, before, lower(name))
    }
}

/// What is under a name is as it was.
pub open spec fn unchanged(f: Fields, before: Fields, name: Seq<char>) -> bool {
    (f.contains_key(name) <==> before.contains_key(name)) && (before.contains_key(name) ==> f[name]
        == before[name])
}

proof fn lemma_codex_names()
    ensures
        lower("authorization"@) != lower("ChatGPT-Account-Id"@),
        lower("authorization"@) != lower("x-openai-internal-codex-residency"@),
        lower("authorization"@) != lower("originator"@),
        lower("authorization"@) != lower("user-agent"@),
        lower("ChatGPT-Account-Id"@) != lower("x-openai-internal-codex-residency"@),
        lower("ChatGPT-Account-Id"@) != lower("originator"@),
        lower("ChatGPT-Account-Id"@) != lower("user-agent"@),
        lower("x-openai-internal-codex-residency"@) != lower("originator"@),
        lower("x-openai-internal-codex-residency"@) != lower("user-agent"@),
        lower("originator"@) != lower("user-agent"@),
{
    reveal_strlit("authorization");
    reveal_strlit("ChatGPT-Account-Id");
    reveal_strlit("x-openai-internal-codex-residency");
    reveal_strlit("originator");
    reveal_strlit("user-agent");
    assert(lower("authorization"@).len() == 13);
    assert(lower("ChatGPT-Account-Id"@).len() == 18);
    assert(lower("x-openai-internal-codex-residency"@).len() == 33);
    assert(lower("originator"@).len() == 10);
    assert(lower("user-agent"@).len() == 10);
    assert(lower("originator"@)[0] == 'o');
    assert(lower("user-agent"@)[0] == 'u');
}

/// A Codex request carries the token of the account, its id and its residency where
/// they are known, and the names of the client. Other headers stay.
pub proof fn law_codex_request_speaks_for_the_account(
    b: CodexBackend,
    f: Fields,
    account: Account,
    token: Seq<char>,
    sticky: Option<Seq<char>>,
    body: JsonView,
    other: Seq<char>,
)
    ensures
        ({
            let g = b.injected(f, account, token, sticky, body);
            &&& carries(g, "authorization"@, "Bearer "@ + token)
            &&& carries(g, "originator"@, "opencode"@)
            &&& carries(g, "user-agent"@, "opencode/0.1.0 (underclass-pool-proxy)"@)
            &&& carries_if(g, f, "ChatGPT-Account-Id"@, opt_view(account.account_id))
            &&& carries_if(
                g,
                f,
                "x-openai-internal-codex-residency"@,
                opt_view(account.residency),
            )
            &&& other != lower("authorization"@) && other != lower("originator"@) && other != lower(
                "user-agent"@,
            ) && other != lower("ChatGPT-Account-Id"@) && other != lower(
                "x-openai-internal-codex-residency"@,
            ) ==> unchanged(g, f, other)
        }),
{
    lemma_codex_names();
}

proof fn lemma_copilot_names()
    ensures
        lower("authorization"@) != lower("X-GitHub-Api-Version"@),
        lower("authorization"@) != lower("user-agent"@),
        lower("authorization"@) != lower("x-initiator"@),
        lower("authorization"@) != lower("Openai-Intent"@),
        lower("authorization"@) != lower("X-Interaction-Id"@),
        lower("authorization"@) != lower("Copilot-Vision-Request"@),
        lower("X-GitHub-Api-Version"@) != lower("user-agent"@),
        lower("X-GitHub-Api-Version"@) != lower("x-initiator"@),
        lower("X-GitHub-Api-Version"@) != lower("Openai-Intent"@),
        lower("X-GitHub-Api-Version"@) != lower("X-Interaction-Id"@),
        lower("X-GitHub-Api-Version"@) != lower("Copilot-Vision-Request"@),
        lower("user-agent"@) != lower("x-initiator"@),
        lower("user-agent"@) != lower("Openai-Intent"@),
        lower("user-agent"@) != lower("X-Interaction-Id"@),
        lower("user-agent"@) != lower("Copilot-Vision-Request"@),
        lower("x-initiator"@) != lower("Openai-Intent"@),
        lower("x-initiator"@) != lower("X-Interaction-Id"@),
        lower("x-initiator"@) != lower("Copilot-Vision-Request"@),
        lower("Openai-Intent"@) != lower("X-Interaction-Id"@),
        lower("Openai-Intent"@) != lower("Copilot-Vision-Request"@),
        lower("X-Interaction-Id"@) != lower("Copilot-Vision-Request"@),
{
    reveal_strlit("authorization");
    reveal_strlit("X-GitHub-Api-Version");
    reveal_strlit("user-agent");
    reveal_strlit("x-initiator");
    reveal_strlit("Openai-Intent");
    reveal_strlit("X-Interaction-Id");
    reveal_strlit("Copilot-Vision-Request");
    assert(lower("authorization"@)[0] == 'a');
    assert(lower("Openai-Intent"@)[0] == 'o') by {
        assert("Openai-Intent"@[0] == 'O');
    }
    assert(lower("authorization"@).len() == 13);
    assert(lower("Openai-Intent"@).len() == 13);
    assert(lower("X-GitHub-Api-Version"@).len() == 20);
    assert(lower("user-agent"@).len() == 10);
    assert(lower("x-initiator"@).len() == 11);
    assert(lower("X-Interaction-Id"@).len() == 16);
    assert(lower("Copilot-Vision-Request"@).len() == 22);
}

/// A Copilot request carries the token of the account, the version and the names
/// that Copilot asks for, its session where it has one, and says that it holds
/// images where it does. Other headers stay.
pub proof fn law_copilot_request_speaks_for_the_account(
    b: CopilotBackend,
    f: Fields,
    account: Account,
    token: Seq<char>,
    sticky: Option<Seq<char>>,
    body: JsonView,
    other: Seq<char>,
)
    ensures
        ({
            let g = b.injected(f, account, token, sticky, body);
            &&& carries(g, "authorization"@, "Bearer "@ + token)
            &&& carries(g, "X-GitHub-Api-Version"@, "2026-06-01"@)
            &&& carries(g, "user-agent"@, "opencode/0.1.0 (underclass-pool-proxy)"@)
            &&& carries(g, "x-initiator"@, "user"@)
            &&& carries(g, "Openai-Intent"@, "conversation-edits"@)
            &&& carries_if(g, f, "X-Interaction-Id"@, sticky)
            &&& carries_if(
                g,
                f,
                "Copilot-Vision-Request"@,
                if has_image(body) {
                    Some("true"@)
                } else {
                    None
                },
            )
            &&& other != lower("authorization"@) && other != lower("X-GitHub-Api-Version"@)
                && other != lower("user-agent"@) && other != lower("x-initiator"@) && other
                != lower("Openai-Intent"@) && other != lower("X-Interaction-Id"@) && other != lower(
                "Copilot-Vision-Request"@,
            ) ==> unchanged(g, f, other)
        }),
{
    lemma_copilot_names();
    reveal_strlit("true");
    assert(is_value_text("true"@));
}

/// Every request says that it carries JSON, and that it takes a stream of events or
/// JSON.
pub proof fn law_every_request_carries_json()
    ensures
        carries(common_fields(), "content-type"@, "application/json"@),
        carries(common_fields(), "accept"@, "text/event-stream, application/json"@),
{
    reveal_strlit("content-type");
    reveal_strlit("accept");
    assert(lower("content-type"@).len() == 12);
    assert(lower("accept"@).len() == 6);
}

/// A request to Codex goes to the configured upstream, else to the one of the
/// service, if it is one for responses or chat; any other goes to the API under its
/// own path.
pub proof fn law_codex_url_follows_the_path(
    b: CodexBackend,
    head: Seq<char>,
    path: Seq<char>,
    account: Account,
)
    ensures
        path == head + "/responses"@ || path == head + "/chat/completions"@ ==> b.url(path, account)
            == (match b.upstream {
            Some(u) => u@,
            None => "https://chatgpt.com/backend-api/codex/responses"@,
        }),
        (forall|h: Seq<char>| path != #[trigger] (h + "/responses"@)) && (forall|h: Seq<char>|
            path != #[trigger] (h + "/chat/completions"@)) ==> b.url(path, account)
            == "https://api.openai.com"@ + path,
{
    lemma_suffix(path, "/responses"@);
    lemma_suffix(path, "/chat/completions"@);
    if has_suffix(path, "/responses"@) {
        let h = path.take(path.len() - "/responses"@.len());
        assert(path == h + "/responses"@);
    }
    if has_suffix(path, "/chat/completions"@) {
        let h = path.take(path.len() - "/chat/completions"@.len());
        assert(path == h + "/chat/completions"@);
    }
}

proof fn lemma_suffix(path: Seq<char>, s: Seq<char>)
    ensures
        forall|h: Seq<char>| path == #[trigger] (h + s) ==> has_suffix(path, s),
        has_suffix(path, s) ==> path == path.take(path.len() - s.len()) + s,
{
    assert forall|h: Seq<char>| path == #[trigger] (h + s) implies has_suffix(path, s) by {
        assert(path.subrange(path.len() - s.len(), path.len() as int) =~= s);
    }
    if has_suffix(path, s) {
        assert(path.subrange(path.len() - s.len(), path.len() as int) == s);
        assert(path =~= path.take(path.len() - s.len()) + s);
    }
}

/// A request to Copilot keeps its path, under the host of the enterprise of the
/// account, else under the configured upstream, else under that of the service.
pub proof fn law_copilot_url_keeps_the_path(b: CopilotBackend, path: Seq<char>, account: Account)
    ensures
        account.enterprise_url is None && b.upstream is None ==> b.url(path, account)
            == "https://api.githubcopilot.com"@ + path,
        account.enterprise_url is None && b.upstream is Some ==> b.url(path, account)
            == b.upstream->0@ + path,
        account.enterprise_url is Some ==> b.url(path, account) == "https://copilot-api."@
            + domain_of(account.enterprise_url->0@) + path,
{
}

/// The domain of an enterprise is its address without the scheme and without a
/// slash at its end.
pub proof fn law_domain_is_the_bare_host(h: Seq<char>)
    requires
        h.len() > 0,
        h.last() != '/',
        !has_prefix(h, "https://"@),
        !has_prefix(h, "http://"@),
    ensures
        domain_of(h) == h,
        domain_of(h.push('/')) == h,
        domain_of("https://"@ + h) == h,
        domain_of("https://"@ + h.push('/')) == h,
        domain_of("http://"@ + h) == h,
        domain_of("http://"@ + h.push('/')) == h,
{
    let one = h.push('/');
    lemma_host(h, h);
    lemma_host(h, one);
    reveal_with_fuel(trim_end_of, 2);
    assert(one.drop_last() =~= h);
}

/// A host, with or without a slash behind it, loses its scheme and nothing else.
proof fn lemma_host(h: Seq<char>, x: Seq<char>)
    requires
        h.len() > 0,
        h.last() != '/',
        !has_prefix(h, "https://"@),
        !has_prefix(h, "http://"@),
        x == h || x == h.push('/'),
    ensures
        trim_start_of(trim_start_of(x, "https://"@), "http://"@) == x,
        trim_start_of(trim_start_of("https://"@ + x, "https://"@), "http://"@) == x,
        trim_start_of(trim_start_of("http://"@ + x, "https://"@), "http://"@) == x,
{
    reveal_strlit("https://");
    reveal_strlit("http://");
    let s = "https://"@;
    let p = "http://"@;
    lemma_no_scheme(h, x, s);
    lemma_no_scheme(h, x, p);
    reveal_with_fuel(trim_start_of, 2);
    assert((s + x).subrange(0, 8) =~= s);
    assert((s + x).skip(8) =~= x);
    assert((p + x).subrange(0, 7) =~= p);
    assert((p + x).skip(7) =~= x);
    if has_prefix(p + x, s) {
        assert((p + x).subrange(0, 8)[4] == s[4]);
        assert((p + x)[4] == p[4]);
    }
}

proof fn lemma_no_scheme(h: Seq<char>, x: Seq<char>, s: Seq<char>)
    requires
        h.len() > 0,
        h.last() != '/',
        !has_prefix(h, s),
        x == h || x == h.push('/'),
        s == "https://"@ || s == "http://"@,
    ensures
        !has_prefix(x, s),
{
    reveal_strlit("https://");
    reveal_strlit("http://");
    if has_prefix(x, s) {
        let n = s.len() as int;
        assert(x.subrange(0, n) == s);
        assert(s[n - 2] == '/');
        assert(x[n - 2] == x.subrange(0, n)[n - 2]);
        if h.len() >= n {
            assert(h.subrange(0, n) =~= x.subrange(0, n));
        } else {
            assert(x[n - 2] == h.last());
        }
    }
}

// ---------------------------------------------------------------------------
// Bodies
// ---------------------------------------------------------------------------

/// The document of a request; nothing where its body is none.
pub open spec fn asked_document(ctx: RequestContext) -> JsonView {
    match parsed_json(ctx.body@) {
        Ok(v) => v,
        Err(_) => JsonView::Null,
    }
}

/// Codex is sent the document of the client, told not to store it where it is an
/// object, and never the usage option.
pub proof fn law_codex_body_is_that_of_the_client(
    b: CodexBackend,
    ctx: RequestContext,
    plain: bool,
    key: Seq<char>,
)
    ensures
        match asked_document(ctx) {
            JsonView::Object(m) => body_sent(&b, ctx, plain) matches JsonView::Object(n)
                && n.contains_key("store"@) && n["store"@] == JsonView::Bool(false) && (key
                != "store"@ ==> (n.contains_key(key) <==> m.contains_key(key)) && (m.contains_key(
                key,
            ) ==> n[key] == m[key])),
            v => body_sent(&b, ctx, plain) == v,
        },
{
}

/// The stream of a chat may be asked for its usage: it is an object that asks for a
/// stream and says nothing of usage.
pub open spec fn may_ask_usage(v: JsonView) -> bool {
    v matches JsonView::Object(m) && m.contains_key("stream"@) && m["stream"@] == JsonView::Bool(
        true,
    ) && (m.contains_key("stream_options"@) ==> (m["stream_options"@] matches JsonView::Object(o)
        && !o.contains_key("include_usage"@)))
}

/// Copilot is sent the document of the client as it is, but that the stream of a
/// chat is asked for its usage where the client left that open, and the
/// option was not rejected.
pub proof fn law_copilot_body_asks_for_usage(
    b: CopilotBackend,
    ctx: RequestContext,
    plain: bool,
    head: Seq<char>,
    key: Seq<char>,
)
    ensures
        ({
            let v = asked_document(ctx);
            let sent = body_sent(&b, ctx, plain);
            let chat = ctx.path@ == head + "/chat/completions"@;
            let never_chat = forall|h: Seq<char>|
                ctx.path@ != #[trigger] (h + "/chat/completions"@);
            &&& plain || !may_ask_usage(v) || never_chat ==> sent == v
            &&& chat && !plain && may_ask_usage(v) ==> {
                &&& sent matches JsonView::Object(n) && n.contains_key("stream_options"@) && (
                n["stream_options"@] matches JsonView::Object(o) && o.contains_key(
                    "include_usage"@,
                ) && o["include_usage"@] == JsonView::Bool(true))
                &&& key != "stream_options"@ ==> sent->Object_0.contains_key(key)
                    == v->Object_0.contains_key(key) && (v->Object_0.contains_key(key)
                    ==> sent->Object_0[key] == v->Object_0[key])
            }
        }),
{
    lemma_suffix(ctx.path@, "/chat/completions"@);
    if has_suffix(ctx.path@, "/chat/completions"@) {
        let h = ctx.path@.take(ctx.path@.len() - "/chat/completions"@.len());
        assert(ctx.path@ == h + "/chat/completions"@);
    }
}

/// The usage of a Copilot answer is read under the names of chat exactly if the
/// path is one for chat, that of a Codex answer never.
pub proof fn law_chat_names_go_with_the_path(
    codex: CodexBackend,
    copilot: CopilotBackend,
    path: Seq<char>,
    head: Seq<char>,
)
    ensures
        !codex.is_chat(path),
        path == head + "/chat/completions"@ ==> copilot.is_chat(path),
        (forall|h: Seq<char>| path != #[trigger] (h + "/chat/completions"@)) ==> !copilot.is_chat(
            path,
        ),
{
    lemma_suffix(path, "/chat/completions"@);
    if has_suffix(path, "/chat/completions"@) {
        let h = path.take(path.len() - "/chat/completions"@.len());
        assert(path == h + "/chat/completions"@);
    }
}

/// What goes out is addressed, signed and written for the account that was
/// selected: its address, its headers over the common ones, and the body as JSON.
/// It asks for usage exactly if the body was changed to do so, and it streams if its
/// body asks for a stream.
pub proof fn law_outbound_is_for_the_account<B: Backend>(
    out: Outbound,
    b: &B,
    ctx: RequestContext,
    account: Account,
    token: Seq<char>,
    plain: bool,
)
    requires
        is_outbound(out, b, ctx, account, token, plain),
    ensures
        out.url@ == b.url(ctx.path@, account),
        fields(out.headers) == b.injected(
            common_fields(),
            account,
            token,
            opt_view(ctx.sticky),
            asked_document(ctx),
        ),
        out.body@ == json_text(body_sent(b, ctx, plain)),
        plain ==> !out.asks_usage,
        out.asks_usage <==> !plain && b.with_usage(
            ctx.path@,
            b.prepared(asked_document(ctx)),
        ) is Some,
        out.streams <==> (body_sent(b, ctx, plain) matches JsonView::Object(m) && m.contains_key(
            "stream"@,
        ) && m["stream"@] == JsonView::Bool(true)),
        plain ==> body_sent(b, ctx, plain) == b.prepared(asked_document(ctx)),
{
}

// ---------------------------------------------------------------------------
// Images
// ---------------------------------------------------------------------------

/// The value is an image part by its type.
pub open spec fn is_image(v: JsonView) -> bool {
    says(v, "type"@, "image_url"@) || says(v, "type"@, "input_image"@) || says(
        v,
        "type"@,
        "image"@,
    )
}

proof fn lemma_image_path(v: JsonView, path: Seq<Step>)
    requires
        path.len() > 0,
    ensures
        match (v, path[0]) {
            (JsonView::Object(m), Step::Member(k)) => shows_image(v, path) <==> m.contains_key(k)
                && shows_image(m[k], path.skip(1)),
            (JsonView::Array(s), Step::Item(i)) => shows_image(v, path) <==> 0 <= i < s.len()
                && shows_image(s[i], path.skip(1)),
            _ => !shows_image(v, path),
        },
{
}

/// A body holds an image exactly if it is one, or one of its members or items holds
/// one.
pub proof fn law_image_is_found_at_any_depth(v: JsonView)
    ensures
        match v {
            JsonView::Object(m) => has_image(v) <==> is_image(v) || exists|k: Seq<char>|
                m.contains_key(k) && #[trigger] has_image(m[k]),
            JsonView::Array(s) => has_image(v) <==> exists|i: int|
                0 <= i < s.len() && has_image(#[trigger] s[i]),
            _ => !has_image(v),
        },
{
    let none = Seq::<Step>::empty();
    assert(shows_image(v, none) <==> is_image(v));
    if has_image(v) {
        let path = choose|path: Seq<Step>| #[trigger] shows_image(v, path);
        if path.len() == 0 {
            assert(path =~= none);
        } else {
            lemma_image_path(v, path);
            match (v, path[0]) {
                (JsonView::Object(m), Step::Member(k)) => {
                    assert(shows_image(m[k], path.skip(1)));
                    assert(has_image(m[k]));
                },
                (JsonView::Array(s), Step::Item(i)) => {
                    assert(shows_image(s[i], path.skip(1)));
                    assert(has_image(s[i]));
                },
                _ => {},
            }
        }
    }
    match v {
        JsonView::Object(m) => {
            if exists|k: Seq<char>| m.contains_key(k) && #[trigger] has_image(m[k]) {
                let k = choose|k: Seq<char>| m.contains_key(k) && #[trigger] has_image(m[k]);
                let rest = choose|path: Seq<Step>| #[trigger] shows_image(m[k], path);
                let path = seq![Step::Member(k)] + rest;
                assert(path.skip(1) =~= rest);
                lemma_image_path(v, path);
                assert(shows_image(v, path));
            }
        },
        JsonView::Array(s) => {
            if exists|i: int| 0 <= i < s.len() && has_image(#[trigger] s[i]) {
                let i = choose|i: int| 0 <= i < s.len() && has_image(#[trigger] s[i]);
                let rest = choose|path: Seq<Step>| #[trigger] shows_image(s[i], path);
                let path = seq![Step::Item(i)] + rest;
                assert(path.skip(1) =~= rest);
                lemma_image_path(v, path);
                assert(shows_image(v, path));
            }
        },
        _ => {},
    }
}

// ---------------------------------------------------------------------------
// Catalogs and sign-ins
// ---------------------------------------------------------------------------

/// What is under a path of keys.
pub open spec fn within(v: JsonView, key: Seq<char>) -> JsonView {
    match v {
        JsonView::Object(m) => if m.contains_key(key) {
            m[key]
        } else {
            JsonView::Null
        },
        _ => JsonView::Null,
    }
}

/// A model of Copilot can be used if it has an id, is not disabled, tells the limits
/// of its prompt and its output, and tells whether it takes tools. It is listed
/// with those limits; its context is the limit of its prompt where none is told,
/// and its name is its id where it has none.
pub proof fn law_usable_model_tells_its_limits(
    item: JsonView,
    id: Seq<char>,
    prompt: i64,
    output: i64,
    tools: bool,
    context: i64,
    name: Seq<char>,
)
    ensures
        ({
            let limits = within(within(item, "capabilities"@), "limits"@);
            let supports = within(within(item, "capabilities"@), "supports"@);
            let told = says(item, "id"@, id) && tells(limits, "max_prompt_tokens"@, prompt)
                && tells(limits, "max_output_tokens"@, output) && within(supports, "tool_calls"@)
                == JsonView::Bool(tools);
            let disabled = says(within(item, "policy"@), "state"@, "disabled"@);
            let r = usable_model(item);
            &&& disabled ==> r is None
            &&& says(item, "id"@, Seq::empty()) ==> r is None
            &&& told && id.len() > 0 && !disabled ==> (r matches Some(m) && m.id == id && m.input
                == prompt && m.output == output)
            &&& r is Some && tells(limits, "max_context_window_tokens"@, context) ==> r->0.context
                == context
            &&& r is Some && (forall|c: i64|
                !#[trigger] tells(limits, "max_context_window_tokens"@, c)) ==> r->0.context
                == r->0.input
            &&& r is Some && says(item, "name"@, name) ==> r->0.name == name
            &&& r is Some && (forall|n: Seq<char>| !#[trigger] says(item, "name"@, n)) ==> r->0.name
                == r->0.id
            &&& (forall|n: Seq<char>| !#[trigger] says(item, "id"@, n)) ==> r is None
            &&& (forall|n: i64| !#[trigger] tells(limits, "max_prompt_tokens"@, n)) ==> r is None
            &&& (forall|n: i64| !#[trigger] tells(limits, "max_output_tokens"@, n)) ==> r is None
            &&& !(within(supports, "tool_calls"@) is Bool) ==> r is None
        }),
{
    let limits = within(within(item, "capabilities"@), "limits"@);
    if let Some(JsonView::Text(t)) = item.get("id"@) {
        assert(says(item, "id"@, t));
    }
    if let Some(JsonView::Text(t)) = item.get("name"@) {
        assert(says(item, "name"@, t));
    }
    if let Some(JsonView::Number(Some(n), _)) = limits.get("max_prompt_tokens"@) {
        assert(tells(limits, "max_prompt_tokens"@, n));
    }
    if let Some(JsonView::Number(Some(n), _)) = limits.get("max_output_tokens"@) {
        assert(tells(limits, "max_output_tokens"@, n));
    }
    if let Some(JsonView::Number(Some(n), _)) = limits.get("max_context_window_tokens"@) {
        assert(tells(limits, "max_context_window_tokens"@, n));
    }
}

/// A GitHub user is named by its login, else by its name; an empty one is none.
pub proof fn law_user_is_named_by_login_or_name(body: JsonView, s: Seq<char>)
    ensures
        says(body, "login"@, s) ==> user_named(body) == (if s.len() > 0 {
            Some(s)
        } else {
            None
        }),
        (forall|t: Seq<char>| !#[trigger] says(body, "login"@, t)) && says(body, "name"@, s)
            ==> user_named(body) == (if s.len() > 0 {
            Some(s)
        } else {
            None
        }),
        (forall|t: Seq<char>| !#[trigger] says(body, "login"@, t)) && (forall|t: Seq<char>|
            !#[trigger] says(body, "name"@, t)) ==> user_named(body) is None,
{
    if let Some(JsonView::Text(t)) = body.get("login"@) {
        assert(says(body, "login"@, t));
    }
    if let Some(JsonView::Text(t)) = body.get("name"@) {
        assert(says(body, "name"@, t));
    }
}

/// The first of two texts counts, and the second where there is no first.
pub proof fn law_first_text_counts(a: Option<Seq<char>>, b: Option<Seq<char>>)
    ensures
        a is Some ==> either(a, b) == a,
        a is None ==> either(a, b) == b,
{
}

/// What a token claims is taken over: the account, the residency, and as identity
/// the mail address, else the name. Without claims nothing is known.
pub proof fn law_claims_are_taken_over(c: Claims)
    ensures
        claimed_account(Some(c)) == opt_view(c.account_id),
        claimed_residency(Some(c)) == opt_view(c.residency),
        c.email is Some ==> claimed_identity(Some(c)) == Some(c.email->0@),
        c.email is None ==> claimed_identity(Some(c)) == opt_view(c.display_name),
        claimed_account(None) is None,
        claimed_residency(None) is None,
        claimed_identity(None) is None,
{
}

/// A new account is labelled by the identity of its access token, else by that of
/// its identity token, else by the service; a Copilot account by its user, else by
/// its enterprise, else by the service.
pub proof fn law_label_names_the_person(
    access: Option<Claims>,
    identity: Option<Claims>,
    user: Option<Seq<char>>,
    enterprise: Option<Seq<char>>,
)
    ensures
        claimed_identity(access) matches Some(s) ==> label_of(access, identity) == s,
        claimed_identity(access) is None ==> (claimed_identity(identity) matches Some(s)
            ==> label_of(access, identity) == s),
        claimed_identity(access) is None && claimed_identity(identity) is None ==> label_of(
            access,
            identity,
        ) == "chatgpt"@,
        user matches Some(s) ==> crate::copilot::label_of(user, enterprise) == s,
        user is None ==> (enterprise matches Some(s) ==> crate::copilot::label_of(
            user,
            enterprise,
        ) == s),
        user is None && enterprise is None ==> crate::copilot::label_of(user, enterprise)
            == "github"@,
{
}

/// A token lives for as long as the issuer says, and for one hour where it does not
/// say.
pub proof fn law_token_lives_as_long_as_told(secs: u64, now: int)
    ensures
        lifetime_secs(None) == 3600,
        secs <= 0x7fff_ffff_ffff_ffff ==> lifetime_secs(Some(secs)) == secs,
        secs <= 0x7fff_ffff_ffff_ffff ==> (lifetime_fits(Some(secs), now) <==> secs * 1000
            <= i64::MAX && i64::MIN <= now + secs * 1000 <= i64::MAX),
{
}

/// The issuer is asked as often as it says, at least a second apart; every five
/// seconds where it does not say.
pub proof fn law_issuer_sets_the_pace(interval: Option<Seq<char>>, n: u64)
    ensures
        interval is None ==> poll_interval_secs(interval) == 5,
        interval is Some && parsed_u64(interval->0) is None ==> poll_interval_secs(interval) == 5,
        interval is Some && parsed_u64(interval->0) == Some(n) && n > 0 ==> poll_interval_secs(
            interval,
        ) == n,
        interval is Some && parsed_u64(interval->0) == Some(0u64) ==> poll_interval_secs(interval)
            == 1,
        n <= 1_000_000_000_000 ==> (wait_of(n) matches Some(ms) && ms == 1000 * n + 3000),
        wait_of(n) matches Some(ms) ==> ms == 1000 * n + 3000,
{
}

/// The limits under which the models of a built-in catalog are listed.
pub proof fn law_built_in_models_have_their_limits(id: Seq<char>, name: Seq<char>, context: int)
    ensures
        ({
            let m = crate::codex::listed_as(id, name);
            &&& m.id == id && m.name == name
            &&& m.context == 400_000 && m.input == 272_000 && m.output == 128_000
        }),
        ({
            let m = crate::copilot::listed_as(id, name, context);
            &&& m.id == id && m.name == name
            &&& m.context == context && m.input == context && m.output == 128_000
        }),
{
}

/// Each item that is a usable model is listed, and no other item is.
pub proof fn law_each_usable_item_is_listed(items: Seq<JsonView>, x: JsonView)
    ensures
        usable_models(Seq::empty()).len() == 0,
        usable_model(x) is Some ==> usable_models(items.push(x)).len() == usable_models(
            items,
        ).len() + 1,
        usable_model(x) is None ==> usable_models(items.push(x)) == usable_models(items),
{
    assert(items.push(x).drop_last() =~= items);
    if let Some(m) = usable_model(x) {
        lemma_placed_grows(usable_models(items), m);
    }
}

proof fn lemma_placed_grows(s: Seq<ModelView>, m: ModelView)
    ensures
        placed(s, m).len() == s.len() + 1,
    decreases s.len(),
{
    if s.len() > 0 && below(m.id, s.last().id) {
        lemma_placed_grows(s.drop_last(), m);
    }
}

/// What went wrong in a sign-in is told in words: the request, the status, or what
/// the issuer said.
pub proof fn law_sign_in_errors_are_told(e: String, status: u16)
    ensures
        crate::codex::AuthError::Http(e).words() == "request failed: "@ + e@,
        crate::codex::AuthError::Status(status).words() == "unexpected status "@ + dec(
            status as int,
        ),
        crate::codex::AuthError::Failed(e).words() == "authorization failed: "@ + e@,
        crate::copilot::AuthError::Http(e).words() == "request failed: "@ + e@,
        crate::copilot::AuthError::Status(status).words() == "unexpected status "@ + dec(
            status as int,
        ),
        crate::copilot::AuthError::Failed(e).words() == "authorization failed: "@ + e@,
{
}

} // verus!
