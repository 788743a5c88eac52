//! Account balance store: balances by account, the total-supply counter and
//! the per-account storage bookkeeping.

pub mod core_impl;
pub mod storage_impl;
pub mod storage_management;
