//! What the proxy asks of a family of subscriptions.
use crate::headers::{fields, is_value_text, room_for};
use crate::health::{retry_deadline, RetryNumbers};
use crate::json::{Json, JsonView};
use crate::models::{Account, BackendId, Outcome};
use crate::text::{ends_with, has_suffix, opt_str_view};
use http::HeaderMap;
use vstd::prelude::*;

verus! {

/// The fields of a header map: see [`fields`].
pub type Fields = Map<Seq<char>, Seq<Seq<u8>>>;

/// The most names that a backend adds to the headers of a request.
pub const INJECTED_NAMES: usize = 8;

/// One family of upstream subscriptions.
pub trait Backend {
    spec fn kind(&self) -> BackendId;

    spec fn cooldown(&self) -> i64;

    /// The address that a request for `path` goes to.
    spec fn url(&self, path: Seq<char>, account: Account) -> Seq<char>;

    /// The headers of a request once those of the backend are in.
    spec fn injected(
        &self,
        f: Fields,
        account: Account,
        token: Seq<char>,
        sticky: Option<Seq<char>>,
        body: JsonView,
    ) -> Fields;

    /// The body of a request as the backend wants it.
    spec fn prepared(&self, body: JsonView) -> JsonView;

    /// The body that also asks for the usage of a stream, where the backend adds
    /// that by itself.
    spec fn with_usage(&self, path: Seq<char>, body: JsonView) -> Option<JsonView>;

    spec fn is_chat(&self, path: Seq<char>) -> bool;

    /// What an answer means, where `until` is the deadline of its retry headers.
    spec fn outcome(&self, status: u16, body: Seq<char>, until: Option<i64>, now: int) -> Outcome;

    fn id(&self) -> (r: BackendId)
        ensures
            r == self.kind(),
    ;

    fn default_cooldown_ms(&self) -> (r: i64)
        ensures
            r == self.cooldown(),
    ;

    fn rewrite_url(&self, path: &str, account: &Account) -> (r: String)
        ensures
            r@ == self.url(path@, *account),
    ;

    /// Puts the credential of the account and the headers of the backend in. The
    /// token must be text that a header can hold, and the map must have room.
    fn inject_headers(
        &self,
        account: &Account,
        token: &str,
        sticky: Option<&str>,
        body: &Json,
        headers: &mut HeaderMap,
    )
        requires
            is_value_text(token@),
            room_for(*old(headers), INJECTED_NAMES as nat),
        ensures
            fields(*final(headers)) == self.injected(
                fields(*old(headers)),
                *account,
                token@,
                opt_str_view(sticky),
                body@,
            ),
    ;

    fn prepare_body(&self, body: &mut Json)
        ensures
            final(body)@ == self.prepared(old(body)@),
    ;

    /// Asks for the usage of a stream where the client left that open. Says
    /// whether the body was changed.
    fn auto_stream_usage(&self, path: &str, body: &mut Json) -> (r: bool)
        ensures
            match self.with_usage(path@, old(body)@) {
                Some(v) => r && final(body)@ == v,
                None => !r && final(body)@ == old(body)@,
            },
    ;

    fn usage_is_chat(&self, path: &str) -> (r: bool)
        ensures
            r == self.is_chat(path@),
    ;

    fn classify(
        &self,
        status: u16,
        body: &str,
        headers: &HeaderMap,
        numbers: &RetryNumbers,
        now_ms: i64,
    ) -> (r: Outcome)
        ensures
            r == self.outcome(
                status,
                body@,
                retry_deadline(*headers, *numbers, now_ms as int),
                now_ms as int,
            ),
    ;
}

pub open spec fn is_chat_path(path: Seq<char>) -> bool {
    has_suffix(path, "/chat/completions"@)
}

/// Whether a path is that of chat completions.
pub fn chat_path(path: &str) -> (r: bool)
    ensures
        r == is_chat_path(path@),
{
    ends_with(path, "/chat/completions")
}

} // verus!
