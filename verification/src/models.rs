//! The values that the pool is made of.
use crate::text::same;
use vstd::prelude::*;

verus! {

/// A family of upstream subscriptions.
#[derive(Clone, Copy, Debug, PartialEq, Eq, Structural, Hash)]
pub enum BackendId {
    Codex,
    Copilot,
}

impl BackendId {
    /// The name of the backend, as it is stored and shown.
    pub open spec fn name(self) -> Seq<char> {
        match self {
            BackendId::Codex => "codex"@,
            BackendId::Copilot => "copilot"@,
        }
    }

    /// The backend with the name `s`.
    pub open spec fn named(s: Seq<char>) -> Option<BackendId> {
        if s == "codex"@ {
            Some(BackendId::Codex)
        } else if s == "copilot"@ {
            Some(BackendId::Copilot)
        } else {
            None
        }
    }

    pub fn as_str(self) -> (r: &'static str)
        ensures
            r@ == self.name(),
    {
        match self {
            BackendId::Codex => "codex",
            BackendId::Copilot => "copilot",
        }
    }

    pub fn parse(s: &str) -> (r: Option<Self>)
        ensures
            r == BackendId::named(s@),
    {
        if same(s, "codex") {
            Some(BackendId::Codex)
        } else if same(s, "copilot") {
            Some(BackendId::Copilot)
        } else {
            None
        }
    }

    pub fn all() -> (r: [BackendId; 2])
        ensures
            r@ == seq![BackendId::Codex, BackendId::Copilot],
    {
        [BackendId::Codex, BackendId::Copilot]
    }
}

/// Reading back the name of a backend gives that backend.
pub proof fn law_backend_names_round_trip(b: BackendId)
    ensures
        BackendId::named(b.name()) == Some(b),
{
    reveal_strlit("codex");
    reveal_strlit("copilot");
    assert("codex"@.len() != "copilot"@.len());
}

/// The health of an account.
#[derive(Clone, Copy, Debug, PartialEq, Eq, Structural)]
pub enum AccountStatus {
    Healthy,
    Cooling,
    AuthError,
    Disabled,
}

/// One subscription of the pool.
#[derive(Debug)]
pub struct Account {
    pub id: String,
    pub backend: BackendId,
    pub label: String,
    pub refresh_token: Option<String>,
    pub access_token: Option<String>,
    pub expires_at: i64,
    /// Time of the last successful token refresh, used to schedule rotation.
    /// `0` means that the token was never rotated.
    pub token_refreshed_at: i64,
    pub account_id: Option<String>,
    pub residency: Option<String>,
    pub enterprise_url: Option<String>,
    pub status: AccountStatus,
    pub reset_at: i64,
    pub created_at: i64,
    pub updated_at: i64,
}

impl Clone for Account {
    fn clone(&self) -> (r: Self)
        ensures
            r == *self,
    {
        Account {
            id: self.id.clone(),
            backend: self.backend,
            label: self.label.clone(),
            refresh_token: self.refresh_token.clone(),
            access_token: self.access_token.clone(),
            expires_at: self.expires_at,
            token_refreshed_at: self.token_refreshed_at,
            account_id: self.account_id.clone(),
            residency: self.residency.clone(),
            enterprise_url: self.enterprise_url.clone(),
            status: self.status,
            reset_at: self.reset_at,
            created_at: self.created_at,
            updated_at: self.updated_at,
        }
    }
}

impl Account {
    pub open spec fn is_healthy(self) -> bool {
        self.status == AccountStatus::Healthy
    }

    pub fn healthy(&self) -> (r: bool)
        ensures
            r == self.is_healthy(),
    {
        self.status == AccountStatus::Healthy
    }
}

/// A model that a backend serves.
#[derive(Debug)]
pub struct ModelInfo {
    pub id: String,
    pub name: String,
    pub context: i64,
    pub input: i64,
    pub output: i64,
}

impl Clone for ModelInfo {
    fn clone(&self) -> (r: Self)
        ensures
            r == *self,
    {
        ModelInfo {
            id: self.id.clone(),
            name: self.name.clone(),
            context: self.context,
            input: self.input,
            output: self.output,
        }
    }
}

/// What a catalog entry says, with its texts as sequences.
pub struct ModelView {
    pub id: Seq<char>,
    pub name: Seq<char>,
    pub context: int,
    pub input: int,
    pub output: int,
}

impl View for ModelInfo {
    type V = ModelView;

    open spec fn view(&self) -> ModelView {
        ModelView {
            id: self.id@,
            name: self.name@,
            context: self.context as int,
            input: self.input as int,
            output: self.output as int,
        }
    }
}

/// The views of a list of models.
pub open spec fn model_views(v: Seq<ModelInfo>) -> Seq<ModelView> {
    v.map_values(|m: ModelInfo| m@)
}

/// A sticky session and the account that serves it.
#[derive(Debug)]
pub struct Binding {
    pub cache_key: String,
    pub account_id: String,
    pub backend: BackendId,
    pub bound_at: i64,
}

impl Clone for Binding {
    fn clone(&self) -> (r: Self)
        ensures
            r == *self,
    {
        Binding {
            cache_key: self.cache_key.clone(),
            account_id: self.account_id.clone(),
            backend: self.backend,
            bound_at: self.bound_at,
        }
    }
}

/// What an upstream answer means for the account that gave it.
#[derive(Clone, Copy, Debug, PartialEq, Eq, Structural)]
pub enum Outcome {
    Success,
    QuotaExhausted { until_ms: i64 },
    AuthFailed,
    Transient,
}

/// One line of the request history.
#[derive(Debug)]
pub struct RequestLogEntry {
    pub ts: i64,
    pub request_id: String,
    pub model: String,
    pub backend: Option<String>,
    pub account: Option<String>,
    pub label: Option<String>,
    pub sticky: String,
    pub status: u16,
    pub duration_ms: u64,
}

impl Clone for RequestLogEntry {
    fn clone(&self) -> (r: Self)
        ensures
            r == *self,
    {
        RequestLogEntry {
            ts: self.ts,
            request_id: self.request_id.clone(),
            model: self.model.clone(),
            backend: self.backend.clone(),
            account: self.account.clone(),
            label: self.label.clone(),
            sticky: self.sticky.clone(),
            status: self.status,
            duration_ms: self.duration_ms,
        }
    }
}

/// The latest instant that the clock can report, in epoch milliseconds.
pub const MAX_CLOCK_MS: i64 = 8_210_266_876_799_999;

/// The current time in epoch milliseconds: `chrono::Utc::now` and
/// `DateTime::timestamp_millis`. The clock starts at the epoch and ends with
/// the last instant that `chrono` represents; nothing more is claimed, and two
/// calls may differ in either direction.
#[verifier::external_body]
pub fn now_ms() -> (r: i64)
    ensures
        0 <= r <= MAX_CLOCK_MS,
{
    chrono::Utc::now().timestamp_millis()
}

pub open spec fn is_lower_hex(c: char) -> bool {
    ('0' <= c && c <= '9') || ('a' <= c && c <= 'f')
}

/// The text of a random (version 4) UUID: hyphenated lower-case hexadecimal.
pub open spec fn is_uuid_text(s: Seq<char>) -> bool {
    &&& s.len() == 36
    &&& forall|i: int|
        0 <= i < 36 ==> if i == 8 || i == 13 || i == 18 || i == 23 {
            #[trigger] s[i] == '-'
        } else {
            is_lower_hex(s[i])
        }
    &&& s[14] == '4'
    &&& s[19] == '8' || s[19] == '9' || s[19] == 'a' || s[19] == 'b'
}

/// A fresh identifier: `uuid::Uuid::new_v4`, in the form that its `Display`
/// gives. Only the shape of the text is claimed: its digits are random.
#[verifier::external_body]
pub fn new_id() -> (r: String)
    ensures
        is_uuid_text(r@),
{
    uuid::Uuid::new_v4().to_string()
}

} // verus!
