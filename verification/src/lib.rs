//! Incremental extraction of EulerSwap protocol state from Ethereum blocks.
//!
//! Pools and the lending vaults behind them are separate contracts. The
//! library discovers pool deployments, keeps forward-only registries from
//! addresses to protocol roles, extracts token balance movements from events
//! and from packed vault storage, and merges everything into one ordered
//! change-set per transaction.

pub mod address;
pub mod amount;
pub mod balance_deltas;
pub mod balance_store;
pub mod change_set;
pub mod constants;
pub mod keyed;
pub mod model;
pub mod pool_factories;
pub mod pools_created;
pub mod protocol_changes;
pub mod registry;
pub mod vault_cash;
