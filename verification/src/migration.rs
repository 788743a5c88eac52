//! Migration of a ledger snapshot in bounded batches: one pass that writes a
//! batch into the stores, and one that compares a batch with the stores and
//! changes nothing.

use crate::fungible_token::core_impl::{AccountBalance, AccountId, FungibleToken, FungibleTokenView};
use crate::proof_ledger::{lemma_push_to_set, ProofLedger};
use vstd::prelude::*;

verus! {

/// One batch of a snapshot. Every part may be empty or absent.
pub struct MigrationInputData {
    /// Balances to write, by account.
    pub accounts_eth: Vec<AccountBalance>,
    /// The final total supply of the frozen source.
    pub total_eth_supply_on_near: Option<u128>,
    /// The final storage bytes per account of the frozen source.
    pub account_storage_usage: Option<u64>,
    /// The final number of processed accounts of the frozen source.
    pub statistics_aurora_accounts_counter: Option<u64>,
    /// Identifiers of consumed proofs.
    pub used_proofs: Vec<String>,
}

/// A batch as the contracts see it.
pub struct MigrationInputView {
    pub accounts: Seq<(Seq<char>, u128)>,
    pub total_supply: Option<u128>,
    pub account_storage_usage: Option<u64>,
    pub accounts_counter: Option<u64>,
    pub used_proofs: Seq<Seq<char>>,
}

impl View for MigrationInputData {
    type V = MigrationInputView;

    open spec fn view(&self) -> MigrationInputView {
        MigrationInputView {
            accounts: self.accounts_eth@.map_values(|e: AccountBalance| (e.account_id@, e.balance)),
            total_supply: self.total_eth_supply_on_near,
            account_storage_usage: self.account_storage_usage,
            accounts_counter: self.statistics_aurora_accounts_counter,
            used_proofs: self.used_proofs@.map_values(|k: String| k@),
        }
    }
}

/// The two stores that a migration writes and reads.
pub struct LedgerView {
    pub ft: FungibleTokenView,
    pub used_proofs: Set<Seq<char>>,
}

/// The stores before anything was written.
pub open spec fn empty_ledger() -> LedgerView {
    LedgerView {
        ft: FungibleTokenView {
            balances: Map::empty(),
            total_supply: 0,
            account_storage_usage: 0,
            accounts_counter: 0,
        },
        used_proofs: Set::empty(),
    }
}

/// The balances after each entry was written in turn: an entry overwrites
/// what its account held.
pub open spec fn apply_accounts(balances: Map<Seq<char>, u128>, entries: Seq<(Seq<char>, u128)>) -> Map<
    Seq<char>,
    u128,
>
    decreases entries.len(),
{
    if entries.len() == 0 {
        balances
    } else {
        apply_accounts(balances, entries.drop_last()).insert(entries.last().0, entries.last().1)
    }
}

/// Sum of the amounts of a batch's entries.
pub open spec fn batch_supply(entries: Seq<(Seq<char>, u128)>) -> nat
    decreases entries.len(),
{
    if entries.len() == 0 {
        0
    } else {
        batch_supply(entries.drop_last()) + entries.last().1 as nat
    }
}

/// The stores after a batch was applied: its proofs are in the ledger, its
/// entries overwrite the balances of their accounts, and each counter that
/// the batch carries replaces the stored one.
pub open spec fn migrated(state: LedgerView, data: MigrationInputView) -> LedgerView {
    LedgerView {
        ft: FungibleTokenView {
            balances: apply_accounts(state.ft.balances, data.accounts),
            total_supply: match data.total_supply {
                Some(v) => v,
                None => state.ft.total_supply,
            },
            account_storage_usage: match data.account_storage_usage {
                Some(v) => v,
                None => state.ft.account_storage_usage,
            },
            accounts_counter: match data.accounts_counter {
                Some(v) => v,
                None => state.ft.accounts_counter,
            },
        },
        used_proofs: state.used_proofs.union(data.used_proofs.to_set()),
    }
}

/// What a comparison of a batch with the stores found.
#[derive(Debug, Clone, PartialEq, Eq)]
pub enum MigrationCheckResult {
    /// Everything in the batch agrees with the stores.
    Success,
    /// This proof of the batch is not in the ledger.
    Proof(String),
    /// This account of the batch is not registered.
    AccountNotExist(AccountId),
    /// This account holds `actual` where the batch says `expected`.
    AccountAmount { account_id: AccountId, expected: u128, actual: u128 },
    /// The stored total supply, which differs from the batch's.
    TotalSupply(u128),
    /// The stored storage bytes per account, which differ from the batch's.
    StorageUsage(u64),
    /// The stored number of processed accounts, which differs from the batch's.
    StatisticsCounter(u64),
}

/// A comparison's outcome as the contracts see it.
pub enum CheckOutcome {
    Success,
    Proof(Seq<char>),
    AccountNotExist(Seq<char>),
    AccountAmount { account_id: Seq<char>, expected: u128, actual: u128 },
    TotalSupply(u128),
    StorageUsage(u64),
    StatisticsCounter(u64),
}

impl View for MigrationCheckResult {
    type V = CheckOutcome;

    open spec fn view(&self) -> CheckOutcome {
        match self {
            MigrationCheckResult::Success => CheckOutcome::Success,
            MigrationCheckResult::Proof(p) => CheckOutcome::Proof(p@),
            MigrationCheckResult::AccountNotExist(a) => CheckOutcome::AccountNotExist(a@),
            MigrationCheckResult::AccountAmount { account_id, expected, actual } => {
                CheckOutcome::AccountAmount {
                    account_id: account_id@,
                    expected: *expected,
                    actual: *actual,
                }
            },
            MigrationCheckResult::TotalSupply(v) => CheckOutcome::TotalSupply(*v),
            MigrationCheckResult::StorageUsage(v) => CheckOutcome::StorageUsage(*v),
            MigrationCheckResult::StatisticsCounter(v) => CheckOutcome::StatisticsCounter(*v),
        }
    }
}

/// The first proof of `proofs` that the ledger lacks.
pub open spec fn first_unused_proof(ledger: Set<Seq<char>>, proofs: Seq<Seq<char>>) -> Option<
    Seq<char>,
>
    decreases proofs.len(),
{
    if proofs.len() == 0 {
        None
    } else if !ledger.contains(proofs.first()) {
        Some(proofs.first())
    } else {
        first_unused_proof(ledger, proofs.drop_first())
    }
}

/// How one entry of a batch disagrees with the balances, if it does.
pub open spec fn account_mismatch(balances: Map<Seq<char>, u128>, entry: (Seq<char>, u128)) -> Option<
    CheckOutcome,
> {
    if !balances.dom().contains(entry.0) {
        Some(CheckOutcome::AccountNotExist(entry.0))
    } else if balances[entry.0] != entry.1 {
        Some(
            CheckOutcome::AccountAmount {
                account_id: entry.0,
                expected: entry.1,
                actual: balances[entry.0],
            },
        )
    } else {
        None
    }
}

/// The disagreement of the first entry of `entries` that disagrees with the
/// balances.
pub open spec fn first_account_mismatch(
    balances: Map<Seq<char>, u128>,
    entries: Seq<(Seq<char>, u128)>,
) -> Option<CheckOutcome>
    decreases entries.len(),
{
    if entries.len() == 0 {
        None
    } else if account_mismatch(balances, entries.first()) is Some {
        account_mismatch(balances, entries.first())
    } else {
        first_account_mismatch(balances, entries.drop_first())
    }
}

/// The first counter of the batch that differs from the stored one: total
/// supply, then storage bytes per account, then processed accounts.
pub open spec fn counter_mismatch(ft: FungibleTokenView, data: MigrationInputView) -> CheckOutcome {
    if data.total_supply is Some && data.total_supply != Some(ft.total_supply) {
        CheckOutcome::TotalSupply(ft.total_supply)
    } else if data.account_storage_usage is Some && data.account_storage_usage != Some(
        ft.account_storage_usage,
    ) {
        CheckOutcome::StorageUsage(ft.account_storage_usage)
    } else if data.accounts_counter is Some && data.accounts_counter != Some(ft.accounts_counter) {
        CheckOutcome::StatisticsCounter(ft.accounts_counter)
    } else {
        CheckOutcome::Success
    }
}

/// The outcome of comparing a batch with the stores: the first proof that is
/// missing, else the first account that disagrees, else the first counter
/// that differs, else success.
pub open spec fn check_outcome(state: LedgerView, data: MigrationInputView) -> CheckOutcome {
    match first_unused_proof(state.used_proofs, data.used_proofs) {
        Some(p) => CheckOutcome::Proof(p),
        None => match first_account_mismatch(state.ft.balances, data.accounts) {
            Some(outcome) => outcome,
            None => counter_mismatch(state.ft, data),
        },
    }
}

/// The stores as the contracts see them.
pub open spec fn ledger_view(ft: &FungibleToken, used_proofs: &ProofLedger) -> LedgerView {
    LedgerView { ft: ft@, used_proofs: used_proofs@ }
}

/// The sum of a batch's amounts where it fits in 128 bits.
pub open spec fn batch_supply_delta(entries: Seq<(Seq<char>, u128)>) -> Option<u128> {
    if batch_supply(entries) <= u128::MAX {
        Some(batch_supply(entries) as u128)
    } else {
        None
    }
}

/// Write a batch into the stores. Each proof enters the ledger unless it is
/// there already; each entry overwrites the balance of its account; each
/// counter that the batch carries replaces the stored one. Returns the sum of
/// the batch's amounts, `None` where it exceeds 128 bits.
pub fn migrate(ft: &mut FungibleToken, used_proofs: &mut ProofLedger, data: &MigrationInputData) -> (delta:
    Option<u128>)
    requires
        old(ft).wf(),
        old(used_proofs).wf(),
    ensures
        final(ft).wf(),
        final(used_proofs).wf(),
        ledger_view(final(ft), final(used_proofs)) == migrated(
            ledger_view(old(ft), old(used_proofs)),
            data@,
        ),
        delta == batch_supply_delta(data@.accounts),
{
    let ghost before = ledger_view(ft, used_proofs);
    let mut i: usize = 0;
    proof {
        assert(data@.used_proofs.take(0).to_set() =~= Set::<Seq<char>>::empty());
        assert(before.used_proofs.union(Set::<Seq<char>>::empty()) =~= before.used_proofs);
    }
    while i < data.used_proofs.len()
        invariant
            i <= data.used_proofs@.len(),
            data@.used_proofs.len() == data.used_proofs@.len(),
            used_proofs.wf(),
            used_proofs@ == before.used_proofs.union(data@.used_proofs.take(i as int).to_set()),
        decreases data.used_proofs@.len() - i,
    {
        proof {
            let done = data@.used_proofs.take(i as int);
            let key = data.used_proofs@[i as int]@;
            assert(data@.used_proofs[i as int] == key);
            assert(data@.used_proofs.take(i + 1) =~= done.push(key));
            lemma_push_to_set(done, key);
            assert(before.used_proofs.union(done.to_set()).insert(key) =~= before.used_proofs.union(
                done.to_set().insert(key),
            ));
        }
        used_proofs.insert(&data.used_proofs[i]);
        i += 1;
    }
    assert(data@.used_proofs.take(i as int) =~= data@.used_proofs);

    let mut delta: Option<u128> = Some(0);
    let mut j: usize = 0;
    while j < data.accounts_eth.len()
        invariant
            j <= data.accounts_eth@.len(),
            data@.accounts.len() == data.accounts_eth@.len(),
            ft.wf(),
            ft@ == (FungibleTokenView {
                balances: apply_accounts(before.ft.balances, data@.accounts.take(j as int)),
                ..before.ft
            }),
            delta == batch_supply_delta(data@.accounts.take(j as int)),
        decreases data.accounts_eth@.len() - j,
    {
        let entry = &data.accounts_eth[j];
        proof {
            let done = data@.accounts.take(j as int);
            assert(data@.accounts[j as int] == (entry.account_id@, entry.balance));
            assert(data@.accounts.take(j + 1).drop_last() =~= done);
        }
        ft.accounts_insert(&entry.account_id, entry.balance);
        delta =
        match delta {
            Some(sum) => sum.checked_add(entry.balance),
            None => None,
        };
        j += 1;
    }
    assert(data@.accounts.take(j as int) =~= data@.accounts);

    if let Some(supply) = data.total_eth_supply_on_near {
        ft.set_total_supply(supply);
    }
    if let Some(usage) = data.account_storage_usage {
        ft.set_account_storage_usage(usage);
    }
    if let Some(counter) = data.statistics_aurora_accounts_counter {
        ft.set_accounts_counter(counter);
    }
    delta
}

/// Compare a batch with the stores and change nothing: the first proof that
/// the ledger lacks, else the first account whose stored balance is missing
/// or differs from the batch's amount, else the first counter that differs,
/// else success.
pub fn check_migration_correctness(
    ft: &FungibleToken,
    used_proofs: &ProofLedger,
    data: &MigrationInputData,
) -> (res: MigrationCheckResult)
    requires
        ft.wf(),
    ensures
        res@ == check_outcome(ledger_view(ft, used_proofs), data@),
{
    let mut i: usize = 0;
    assert(data@.used_proofs.skip(0) =~= data@.used_proofs);
    while i < data.used_proofs.len()
        invariant
            i <= data.used_proofs@.len(),
            data@.used_proofs.len() == data.used_proofs@.len(),
            first_unused_proof(used_proofs@, data@.used_proofs) == first_unused_proof(
                used_proofs@,
                data@.used_proofs.skip(i as int),
            ),
        decreases data.used_proofs@.len() - i,
    {
        proof {
            let rest = data@.used_proofs.skip(i as int);
            assert(rest.first() == data.used_proofs@[i as int]@);
            assert(rest.drop_first() =~= data@.used_proofs.skip(i + 1));
        }
        if !used_proofs.is_used_proof(&data.used_proofs[i]) {
            return MigrationCheckResult::Proof(data.used_proofs[i].clone());
        }
        i += 1;
    }

    let mut j: usize = 0;
    assert(data@.accounts.skip(0) =~= data@.accounts);
    while j < data.accounts_eth.len()
        invariant
            j <= data.accounts_eth@.len(),
            data@.accounts.len() == data.accounts_eth@.len(),
            ft.wf(),
            first_unused_proof(used_proofs@, data@.used_proofs) is None,
            first_account_mismatch(ft@.balances, data@.accounts) == first_account_mismatch(
                ft@.balances,
                data@.accounts.skip(j as int),
            ),
        decreases data.accounts_eth@.len() - j,
    {
        let entry = &data.accounts_eth[j];
        proof {
            let rest = data@.accounts.skip(j as int);
            assert(rest.first() == (entry.account_id@, entry.balance));
            assert(rest.drop_first() =~= data@.accounts.skip(j + 1));
        }
        match ft.get_account_eth_balance(&entry.account_id) {
            None => {
                return MigrationCheckResult::AccountNotExist(entry.account_id.clone());
            },
            Some(actual) => {
                if actual != entry.balance {
                    return MigrationCheckResult::AccountAmount {
                        account_id: entry.account_id.clone(),
                        expected: entry.balance,
                        actual,
                    };
                }
            },
        }
        j += 1;
    }

    if let Some(supply) = data.total_eth_supply_on_near {
        if supply != ft.total_supply() {
            return MigrationCheckResult::TotalSupply(ft.total_supply());
        }
    }
    if let Some(usage) = data.account_storage_usage {
        if usage != ft.account_storage_usage() {
            return MigrationCheckResult::StorageUsage(ft.account_storage_usage());
        }
    }
    if let Some(counter) = data.statistics_aurora_accounts_counter {
        if counter != ft.accounts_counter() {
            return MigrationCheckResult::StatisticsCounter(ft.accounts_counter());
        }
    }
    MigrationCheckResult::Success
}

} // verus!
