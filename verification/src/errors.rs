//! Messages of the errors that callers see.

use vstd::prelude::*;

verus! {

pub const ERR_ACCOUNT_NOT_REGISTERED: &'static str = "ERR_ACCOUNT_NOT_REGISTERED";

pub const ERR_NO_AVAILABLE_BALANCE: &'static str = "ERR_NO_AVAILABLE_BALANCE";

pub const ERR_ATTACHED_DEPOSIT_NOT_ENOUGH: &'static str = "ERR_ATTACHED_DEPOSIT_NOT_ENOUGH";

pub const ERR_FAILED_UNREGISTER_ACCOUNT_POSITIVE_BALANCE: &'static str =
    "ERR_FAILED_UNREGISTER_ACCOUNT_POSITIVE_BALANCE";

/// Message of a call to the migration from another account than the
/// contract's own.
pub const ERR_MIGRATE_PRIVATE: &'static str = "Method migrate is private";

} // verus!
