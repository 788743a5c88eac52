//! Accounting core of a cross-chain token bridge: the pause gate, the ledger
//! of consumed deposit proofs, the account balance store, the deposit
//! decision and the batched migration of a ledger snapshot.

pub mod admin_controlled;
pub mod big_endian;
pub mod connector_impl;
pub mod contract;
pub mod deposit_event;
pub mod errors;
pub mod eth_log;
pub mod fungible_token;
pub mod migration;
pub mod migration_laws;
pub mod proof_data;
pub mod proof_ledger;
pub mod text;
pub mod wire;
