//! Registration of accounts: what an entry costs, and closing an account.

use crate::errors::{
    ERR_ACCOUNT_NOT_REGISTERED, ERR_ATTACHED_DEPOSIT_NOT_ENOUGH,
    ERR_FAILED_UNREGISTER_ACCOUNT_POSITIVE_BALANCE, ERR_NO_AVAILABLE_BALANCE,
};
use crate::fungible_token::core_impl::{lemma_map_sum_insert, AccountId, FungibleToken};
use crate::fungible_token::storage_management::{
    StorageBalance, StorageBalanceBounds, StorageManagement,
};
use vstd::prelude::*;
use vstd::string::StringSliceAdditionalSpecFns;

verus! {

/// Why a storage operation was refused.
#[derive(Debug, Clone, Copy, PartialEq, Eq, Structural)]
pub enum StorageFundingError {
    NotRegistered,
    NoAvailableBalance,
    InsufficientDeposit,
    UnRegisterPositiveBalance,
}

impl StorageFundingError {
    /// The error's message.
    pub open spec fn message(self) -> &'static str {
        match self {
            StorageFundingError::NotRegistered => ERR_ACCOUNT_NOT_REGISTERED,
            StorageFundingError::NoAvailableBalance => ERR_NO_AVAILABLE_BALANCE,
            StorageFundingError::InsufficientDeposit => ERR_ATTACHED_DEPOSIT_NOT_ENOUGH,
            StorageFundingError::UnRegisterPositiveBalance => {
                ERR_FAILED_UNREGISTER_ACCOUNT_POSITIVE_BALANCE
            },
        }
    }

    /// The error's message as bytes.
    pub fn as_ref(&self) -> (bytes: &'static [u8])
        ensures
            bytes@ == self.message().spec_bytes(),
    {
        match self {
            Self::NotRegistered => ERR_ACCOUNT_NOT_REGISTERED.as_bytes(),
            Self::NoAvailableBalance => ERR_NO_AVAILABLE_BALANCE.as_bytes(),
            Self::InsufficientDeposit => ERR_ATTACHED_DEPOSIT_NOT_ENOUGH.as_bytes(),
            Self::UnRegisterPositiveBalance => {
                ERR_FAILED_UNREGISTER_ACCOUNT_POSITIVE_BALANCE.as_bytes()
            },
        }
    }
}

/// The deposit that keeps one account entry alive: its storage bytes at the
/// price of one byte.
pub open spec fn required_storage_balance(account_storage_usage: u64, storage_byte_cost: u128) -> int {
    account_storage_usage as int * storage_byte_cost as int
}

/// What is sent back to an account that is closed: the deposit that its entry
/// required and one unit more.
pub open spec fn unregister_refund(account_storage_usage: u64, storage_byte_cost: u128) -> int {
    required_storage_balance(account_storage_usage, storage_byte_cost) + 1
}

/// The account that a storage deposit is for: the one that is named, else
/// the sender.
pub open spec fn deposit_target(sender_id: Seq<char>, account_id: Option<AccountId>) -> Seq<char> {
    match account_id {
        Some(account_id) => account_id@,
        None => sender_id,
    }
}

impl FungibleToken {
    /// Register the account that is named, else the sender, against the
    /// attached deposit, and return what it has deposited for its storage
    /// with the amount to refund. A registered account gets the whole deposit
    /// back. A new account is refused where the deposit is less than an entry
    /// requires; else it is registered with a zero balance and gets back what
    /// exceeds the requirement.
    pub fn engine_storage_deposit(
        &mut self,
        sender_id: AccountId,
        account_id: Option<AccountId>,
        attached_deposit: u128,
        storage_byte_cost: u128,
    ) -> (res: Result<(StorageBalance, u128), StorageFundingError>)
        requires
            old(self).wf(),
            required_storage_balance(old(self)@.account_storage_usage, storage_byte_cost)
                <= u128::MAX,
        ensures
            final(self).wf(),
            ({
                let target = deposit_target(sender_id@, account_id);
                let required = required_storage_balance(
                    old(self)@.account_storage_usage,
                    storage_byte_cost,
                );
                let paid = StorageBalance { total: required as u128, available: 0 };
                if old(self)@.balances.dom().contains(target) {
                    res == Ok::<(StorageBalance, u128), StorageFundingError>(
                        (paid, attached_deposit),
                    ) && final(self)@ == old(self)@
                } else if attached_deposit < required {
                    res == Err::<(StorageBalance, u128), StorageFundingError>(
                        StorageFundingError::InsufficientDeposit,
                    ) && final(self)@ == old(self)@
                } else {
                    res == Ok::<(StorageBalance, u128), StorageFundingError>(
                        (paid, (attached_deposit - required) as u128),
                    ) && final(self)@ == old(self)@.with_balance(target, 0)
                }
            }),
            old(self)@.supply_consistent() ==> final(self)@.supply_consistent(),
    {
        let target = match account_id {
            Some(account_id) => account_id,
            None => sender_id,
        };
        let min_balance = self.storage_balance_bounds(storage_byte_cost).min;
        let paid = StorageBalance { total: min_balance, available: 0 };
        if self.contains_account(&target) {
            return Ok((paid, attached_deposit));
        }
        if attached_deposit < min_balance {
            return Err(StorageFundingError::InsufficientDeposit);
        }
        proof {
            self.lemma_finite();
            lemma_map_sum_insert(self@.balances, target@, 0);
        }
        self.accounts_insert(&target, 0);
        Ok((paid, attached_deposit - min_balance))
    }

    /// What `sender_id` has deposited for its storage, of which nothing can
    /// be withdrawn: an amount above zero is refused, and so is an account
    /// that is not registered.
    pub fn engine_storage_withdraw(
        &self,
        sender_id: AccountId,
        amount: Option<u128>,
        storage_byte_cost: u128,
    ) -> (res: Result<StorageBalance, StorageFundingError>)
        requires
            self.wf(),
            required_storage_balance(self@.account_storage_usage, storage_byte_cost) <= u128::MAX,
        ensures
            res == if !self@.balances.dom().contains(sender_id@) {
                Err::<StorageBalance, StorageFundingError>(StorageFundingError::NotRegistered)
            } else if amount matches Some(a) && a > 0 {
                Err::<StorageBalance, StorageFundingError>(StorageFundingError::NoAvailableBalance)
            } else {
                Ok::<StorageBalance, StorageFundingError>(
                    StorageBalance {
                        total: required_storage_balance(
                            self@.account_storage_usage,
                            storage_byte_cost,
                        ) as u128,
                        available: 0,
                    },
                )
            },
    {
        match self.internal_storage_balance_of(&sender_id, storage_byte_cost) {
            None => Err(StorageFundingError::NotRegistered),
            Some(storage_balance) => match amount {
                Some(amount) => if amount > 0 {
                    Err(StorageFundingError::NoAvailableBalance)
                } else {
                    Ok(storage_balance)
                },
                None => Ok(storage_balance),
            },
        }
    }

    /// Close `account_id` and return it with the balance it held, `None`
    /// where it is not registered. A positive balance is refused unless
    /// `force` is set, and is then burnt: the total supply keeps counting it.
    pub fn internal_storage_unregister(&mut self, account_id: AccountId, force: Option<bool>) -> (res:
        Result<Option<(AccountId, u128)>, StorageFundingError>)
        requires
            old(self).wf(),
        ensures
            final(self).wf(),
            match res {
                Ok(Some((closed, balance))) => {
                    &&& closed@ == account_id@
                    &&& old(self)@.balances.dom().contains(account_id@)
                    &&& balance == old(self)@.balances[account_id@]
                    &&& balance == 0 || force == Some(true)
                    &&& final(self)@ == old(self)@.without(account_id@)
                },
                Ok(None) => {
                    &&& !old(self)@.balances.dom().contains(account_id@)
                    &&& final(self)@ == old(self)@
                },
                Err(e) => {
                    &&& e == StorageFundingError::UnRegisterPositiveBalance
                    &&& old(self)@.balances.dom().contains(account_id@)
                    &&& old(self)@.balances[account_id@] > 0
                    &&& force != Some(true)
                    &&& final(self)@ == old(self)@
                },
            },
    {
        let force = match force {
            Some(force) => force,
            None => false,
        };
        match self.remove(&account_id, force) {
            Ok(Some(balance)) => Ok(Some((account_id, balance))),
            Ok(None) => {
                assert(self@.balances =~= old(self)@.balances);
                Ok(None)
            },
            Err(_) => Err(StorageFundingError::UnRegisterPositiveBalance),
        }
    }

    /// The amount to send back to an account that is closed, `None` where it
    /// does not fit in 128 bits.
    pub fn storage_unregister_refund(&self, storage_byte_cost: u128) -> (refund: Option<u128>)
        requires
            required_storage_balance(self@.account_storage_usage, storage_byte_cost) <= u128::MAX,
        ensures
            refund == if unregister_refund(self@.account_storage_usage, storage_byte_cost)
                <= u128::MAX {
                Some(unregister_refund(self@.account_storage_usage, storage_byte_cost) as u128)
            } else {
                None
            },
    {
        self.storage_balance_bounds(storage_byte_cost).min.checked_add(1)
    }

    /// What a registered account has deposited for its storage: the required
    /// amount, none of it available. `None` for an unknown account.
    pub fn internal_storage_balance_of(&self, account_id: &AccountId, storage_byte_cost: u128) -> (res:
        Option<StorageBalance>)
        requires
            self.wf(),
            required_storage_balance(self@.account_storage_usage, storage_byte_cost) <= u128::MAX,
        ensures
            res == if self@.balances.dom().contains(account_id@) {
                Some(
                    StorageBalance {
                        total: required_storage_balance(
                            self@.account_storage_usage,
                            storage_byte_cost,
                        ) as u128,
                        available: 0,
                    },
                )
            } else {
                None
            },
    {
        if self.contains_account(account_id) {
            Some(
                StorageBalance {
                    total: self.storage_balance_bounds(storage_byte_cost).min,
                    available: 0,
                },
            )
        } else {
            None
        }
    }
}

impl StorageManagement for FungibleToken {
    open spec fn storage_wf(&self) -> bool {
        self.wf()
    }

    open spec fn storage_priced(&self, storage_byte_cost: u128) -> bool {
        required_storage_balance(self@.account_storage_usage, storage_byte_cost) <= u128::MAX
    }

    /// Register the account that is named, else the sender, against the
    /// attached deposit. `registration_only` changes nothing: an entry costs
    /// the same for every account, so what exceeds it is always refunded.
    fn storage_deposit(
        &mut self,
        sender_id: AccountId,
        account_id: Option<AccountId>,
        registration_only: Option<bool>,
        attached_deposit: u128,
        storage_byte_cost: u128,
    ) -> (res: Result<(StorageBalance, u128), StorageFundingError>)
        ensures
            ({
                let target = deposit_target(sender_id@, account_id);
                let required = required_storage_balance(
                    old(self)@.account_storage_usage,
                    storage_byte_cost,
                );
                let paid = StorageBalance { total: required as u128, available: 0 };
                if old(self)@.balances.dom().contains(target) {
                    res == Ok::<(StorageBalance, u128), StorageFundingError>(
                        (paid, attached_deposit),
                    ) && final(self)@ == old(self)@
                } else if attached_deposit < required {
                    res == Err::<(StorageBalance, u128), StorageFundingError>(
                        StorageFundingError::InsufficientDeposit,
                    ) && final(self)@ == old(self)@
                } else {
                    res == Ok::<(StorageBalance, u128), StorageFundingError>(
                        (paid, (attached_deposit - required) as u128),
                    ) && final(self)@ == old(self)@.with_balance(target, 0)
                }
            }),
            old(self)@.supply_consistent() ==> final(self)@.supply_consistent(),
    {
        self.engine_storage_deposit(sender_id, account_id, attached_deposit, storage_byte_cost)
    }

    /// Nothing of a storage deposit is ever available, so only an amount of
    /// zero, or none, can be withdrawn, and nothing changes.
    fn storage_withdraw(
        &mut self,
        sender_id: AccountId,
        amount: Option<u128>,
        storage_byte_cost: u128,
    ) -> (res: Result<StorageBalance, StorageFundingError>)
        ensures
            final(self)@ == old(self)@,
            res == if !old(self)@.balances.dom().contains(sender_id@) {
                Err::<StorageBalance, StorageFundingError>(StorageFundingError::NotRegistered)
            } else if amount matches Some(a) && a > 0 {
                Err::<StorageBalance, StorageFundingError>(StorageFundingError::NoAvailableBalance)
            } else {
                Ok::<StorageBalance, StorageFundingError>(
                    StorageBalance {
                        total: required_storage_balance(
                            old(self)@.account_storage_usage,
                            storage_byte_cost,
                        ) as u128,
                        available: 0,
                    },
                )
            },
    {
        self.engine_storage_withdraw(sender_id, amount, storage_byte_cost)
    }

    /// Close the sender's account: `Ok(true)` where it was registered and is
    /// now closed, `Ok(false)` where it was not registered, and a refusal
    /// where it holds a balance and `force` is not set.
    fn storage_unregister(&mut self, sender_id: AccountId, force: Option<bool>) -> (res: Result<
        bool,
        StorageFundingError,
    >)
        ensures
            res == if !old(self)@.balances.dom().contains(sender_id@) {
                Ok::<bool, StorageFundingError>(false)
            } else if old(self)@.balances[sender_id@] == 0 || force == Some(true) {
                Ok::<bool, StorageFundingError>(true)
            } else {
                Err::<bool, StorageFundingError>(StorageFundingError::UnRegisterPositiveBalance)
            },
            final(self)@ == if res == Ok::<bool, StorageFundingError>(true) {
                old(self)@.without(sender_id@)
            } else {
                old(self)@
            },
    {
        match self.internal_storage_unregister(sender_id, force) {
            Ok(closed) => Ok(closed.is_some()),
            Err(e) => Err(e),
        }
    }

    /// The deposit that an account entry requires, as the least and the most
    /// that may be deposited.
    fn storage_balance_bounds(&self, storage_byte_cost: u128) -> (bounds: StorageBalanceBounds)
        ensures
            bounds.min == required_storage_balance(self@.account_storage_usage, storage_byte_cost),
            bounds.max == Some(bounds.min),
    {
        let required_storage_balance = self.account_storage_usage() as u128 * storage_byte_cost;
        StorageBalanceBounds { min: required_storage_balance, max: Some(required_storage_balance) }
    }

    /// What `account_id` has deposited for its storage, nothing for an
    /// unknown account.
    fn storage_balance_of(&self, account_id: AccountId, storage_byte_cost: u128) -> (balance:
        StorageBalance)
        ensures
            balance.available == 0,
            balance.total == if self@.balances.dom().contains(account_id@) {
                required_storage_balance(self@.account_storage_usage, storage_byte_cost) as u128
            } else {
                0
            },
    {
        match self.internal_storage_balance_of(&account_id, storage_byte_cost) {
            Some(balance) => balance,
            None => StorageBalance::default(),
        }
    }
}

} // verus!
