//! Pooled multi-subscription proxy core: account health, sticky selection,
//! failover, quota resets and usage accounting, stated and proved.
pub mod text;
pub mod text_laws;
pub mod table;
pub mod models;
pub mod json;
pub mod usage;
pub mod clock;
pub mod sticky;
pub mod pool;
pub mod pool_laws;
pub mod selection_laws;
pub mod headers;
pub mod health;
pub mod provider;
pub mod store;
pub mod flows;
pub mod codex;
pub mod copilot;
pub mod outcome_laws;
pub mod resets;
pub mod reset_laws;
pub mod search_laws;
pub mod proxy;
pub mod outbound_laws;
pub mod account_laws;
pub mod request_laws;
pub mod usage_laws;
pub mod tokens;
pub mod logging;
pub mod config;
pub mod statements;
pub mod startup;
pub mod monitor;
pub mod ui;
pub mod top;
pub mod state_laws;
