//! What an account has paid for its storage, and what it has to pay.

use crate::fungible_token::core_impl::AccountId;
use crate::fungible_token::storage_impl::StorageFundingError;
use vstd::prelude::*;

verus! {

/// Storage deposit of one account.
#[derive(Debug, Clone, Copy, PartialEq, Eq, Structural)]
pub struct StorageBalance {
    pub total: u128,
    pub available: u128,
}

impl Default for StorageBalance {
    fn default() -> (balance: Self)
        ensures
            balance.total == 0,
            balance.available == 0,
    {
        Self { total: 0, available: 0 }
    }
}

/// The least and the most that an account may deposit for its storage.
#[derive(Debug, Clone, Copy, PartialEq, Eq, Structural)]
pub struct StorageBalanceBounds {
    pub min: u128,
    pub max: Option<u128>,
}

/// Storage management of a token: an account pays a deposit for its entry
/// and gets it back when the entry is closed. The sender, the attached
/// deposit and the price of one byte of storage come from the caller; a
/// refund is returned as an amount for the caller to transfer.
pub trait StorageManagement {
    /// Whether the store is well formed.
    spec fn storage_wf(&self) -> bool;

    /// Whether the deposit for one entry fits in 128 bits at this price of
    /// one byte.
    spec fn storage_priced(&self, storage_byte_cost: u128) -> bool;

    /// Register the account that is named, else the sender, and return what
    /// it has deposited with the amount to refund.
    fn storage_deposit(
        &mut self,
        sender_id: AccountId,
        account_id: Option<AccountId>,
        registration_only: Option<bool>,
        attached_deposit: u128,
        storage_byte_cost: u128,
    ) -> (res: Result<(StorageBalance, u128), StorageFundingError>)
        requires
            old(self).storage_wf(),
            old(self).storage_priced(storage_byte_cost),
        ensures
            final(self).storage_wf(),
            final(self).storage_priced(storage_byte_cost),
    ;

    /// What the sender has deposited, after withdrawing `amount` of what is
    /// available.
    fn storage_withdraw(
        &mut self,
        sender_id: AccountId,
        amount: Option<u128>,
        storage_byte_cost: u128,
    ) -> (res: Result<StorageBalance, StorageFundingError>)
        requires
            old(self).storage_wf(),
            old(self).storage_priced(storage_byte_cost),
        ensures
            final(self).storage_wf(),
            final(self).storage_priced(storage_byte_cost),
    ;

    /// Close the sender's account. Returns whether it was registered.
    fn storage_unregister(&mut self, sender_id: AccountId, force: Option<bool>) -> (res: Result<
        bool,
        StorageFundingError,
    >)
        requires
            old(self).storage_wf(),
        ensures
            final(self).storage_wf(),
    ;

    /// The least and the most that an account may deposit for its storage.
    fn storage_balance_bounds(&self, storage_byte_cost: u128) -> (bounds: StorageBalanceBounds)
        requires
            self.storage_priced(storage_byte_cost),
    ;

    /// What `account_id` has deposited for its storage.
    fn storage_balance_of(&self, account_id: AccountId, storage_byte_cost: u128) -> (balance:
        StorageBalance)
        requires
            self.storage_wf(),
            self.storage_priced(storage_byte_cost),
    ;
}

} // verus!
