//! Sign-ins under way.
use crate::models::{is_uuid_text, new_id, now_ms, Account, AccountStatus, BackendId, MAX_CLOCK_MS};
use crate::table::Table;
use vstd::prelude::*;

verus! {

/// How far a sign-in has come.
#[derive(Debug)]
pub enum FlowState {
    Pending { user_code: String, verify_url: String },
    Authorized { account_id: String },
    Failed { message: String },
}

impl Clone for FlowState {
    fn clone(&self) -> (r: Self)
        ensures
            r == *self,
    {
        match self {
            FlowState::Pending { user_code, verify_url } => FlowState::Pending {
                user_code: user_code.clone(),
                verify_url: verify_url.clone(),
            },
            FlowState::Authorized { account_id } => FlowState::Authorized {
                account_id: account_id.clone(),
            },
            FlowState::Failed { message } => FlowState::Failed { message: message.clone() },
        }
    }
}

/// A sign-in, and the account that it renews.
#[derive(Debug)]
pub struct Flow {
    pub backend: BackendId,
    pub state: FlowState,
    pub replace_account: Option<String>,
}

impl Clone for Flow {
    fn clone(&self) -> (r: Self)
        ensures
            r == *self,
    {
        Flow {
            backend: self.backend,
            state: self.state.clone(),
            replace_account: self.replace_account.clone(),
        }
    }
}

/// The sign-ins under way, by id.
#[derive(Debug)]
pub struct FlowRegistry {
    flows: Table<Flow>,
}

impl View for FlowRegistry {
    type V = Map<Seq<char>, Flow>;

    closed spec fn view(&self) -> Map<Seq<char>, Flow> {
        self.flows@
    }
}

impl FlowRegistry {
    /// A registry without sign-ins.
    pub fn new() -> (r: Self)
        ensures
            r@ == Map::<Seq<char>, Flow>::empty(),
    {
        FlowRegistry { flows: Table::new() }
    }

    /// Registers a sign-in under a fresh id.
    pub fn create(
        &mut self,
        backend: BackendId,
        state: FlowState,
        replace_account: Option<String>,
    ) -> (r: String)
        ensures
            is_uuid_text(r@),
            final(self)@ == old(self)@.insert(r@, (Flow { backend, state, replace_account })),
    {
        let id = new_id();
        self.register(id.as_str(), Flow { backend, state, replace_account });
        id
    }

    /// Registers a sign-in under the given id, in place of one that had it.
    pub fn register(&mut self, id: &str, flow: Flow)
        ensures
            final(self)@ == old(self)@.insert(id@, flow),
    {
        self.flows.put(id, flow);
    }

    /// The sign-in with the given id.
    pub fn get(&self, id: &str) -> (r: Option<Flow>)
        ensures
            r == (if self@.contains_key(id@) {
                Some(self@[id@])
            } else {
                None
            }),
    {
        match self.flows.get(id) {
            Some(flow) => Some(flow.clone()),
            None => None,
        }
    }

    /// Records how far the sign-in has come; an unknown one is left alone.
    pub fn set_state(&mut self, id: &str, state: FlowState)
        ensures
            final(self)@ == (if old(self)@.contains_key(id@) {
                old(self)@.insert(id@, (Flow { state, ..old(self)@[id@] }))
            } else {
                old(self)@
            }),
    {
        if let Some(flow) = self.get(id) {
            let mut flow = flow;
            flow.state = state;
            self.flows.put(id, flow);
        }
    }
}

/// The account that is new at `ts`: healthy, without credentials.
pub fn account_at(id: String, backend: BackendId, label: String, ts: i64) -> (r: Account)
    ensures
        r == (Account {
            id,
            backend,
            label,
            refresh_token: None,
            access_token: None,
            expires_at: 0,
            token_refreshed_at: 0,
            account_id: None,
            residency: None,
            enterprise_url: None,
            status: AccountStatus::Healthy,
            reset_at: 0,
            created_at: ts,
            updated_at: ts,
        }),
{
    Account {
        id,
        backend,
        label,
        refresh_token: None,
        access_token: None,
        expires_at: 0,
        token_refreshed_at: 0,
        account_id: None,
        residency: None,
        enterprise_url: None,
        status: AccountStatus::Healthy,
        reset_at: 0,
        created_at: ts,
        updated_at: ts,
    }
}

/// A new account with a fresh id, made now.
pub fn new_account(backend: BackendId, label: String) -> (r: Account)
    ensures
        r == (Account {
            id: r.id,
            backend,
            label,
            refresh_token: None,
            access_token: None,
            expires_at: 0,
            token_refreshed_at: 0,
            account_id: None,
            residency: None,
            enterprise_url: None,
            status: AccountStatus::Healthy,
            reset_at: 0,
            created_at: r.created_at,
            updated_at: r.created_at,
        }),
        is_uuid_text(r.id@),
        0 <= r.created_at <= MAX_CLOCK_MS,
{
    let ts = now_ms();
    account_at(new_id(), backend, label, ts)
}

} // verus!
