//! The connector's whole state and its entry points: every operation takes
//! the state by reference and either completes or leaves it as it was.

use crate::admin_controlled::PausedMask;
use crate::connector_impl::{EthConnector, FinishDepositCallArgs, FinishDepositView};
use crate::deposit_event::Address;
use crate::fungible_token::core_impl::{AccountId, FungibleToken};
use crate::migration::{
    batch_supply_delta, check_migration_correctness, check_outcome, empty_ledger, ledger_view,
    migrate, migrated, LedgerView, MigrationCheckResult, MigrationInputData, MigrationInputView,
};
use crate::proof_ledger::ProofLedger;
use vstd::prelude::*;

verus! {

/// Why a credit instruction was refused.
#[derive(Debug, Clone, Copy, PartialEq, Eq, Structural)]
pub enum FinishDepositError {
    /// The proof has credited a balance before.
    ProofUsed,
    /// The account's balance or the total supply would exceed 128 bits.
    Overflow,
}

/// The caller is not the contract's own account.
#[derive(Debug, Clone, Copy, PartialEq, Eq, Structural)]
pub struct PrivateMethodError;

/// The connector with its balance store and its ledger of consumed proofs.
pub struct EthConnectorContract {
    pub connector: EthConnector,
    pub ft: FungibleToken,
    pub used_proofs: ProofLedger,
}

/// The stores after a credit instruction was carried out: the amount is
/// credited to the new owner and the proof is consumed.
pub open spec fn deposit_finished(state: LedgerView, data: FinishDepositView) -> LedgerView {
    LedgerView {
        ft: state.ft.credited(data.new_owner_id, data.amount),
        used_proofs: state.used_proofs.insert(data.proof_key),
    }
}

/// What a credit instruction leads to: a replayed proof is refused first,
/// then a credit that does not fit.
pub open spec fn finish_deposit_outcome(state: LedgerView, data: FinishDepositView) -> Result<
    LedgerView,
    FinishDepositError,
> {
    if state.used_proofs.contains(data.proof_key) {
        Err(FinishDepositError::ProofUsed)
    } else if !state.ft.can_credit(data.new_owner_id, data.amount) {
        Err(FinishDepositError::Overflow)
    } else {
        Ok(deposit_finished(state, data))
    }
}

/// A proof that a credit instruction or a migration has consumed is refused
/// from then on, whatever account and amount it comes with.
pub proof fn lemma_no_replay(
    state: LedgerView,
    first: FinishDepositView,
    second: FinishDepositView,
)
    requires
        first.proof_key == second.proof_key,
    ensures
        finish_deposit_outcome(state, first) matches Ok(after) ==> finish_deposit_outcome(
            after,
            second,
        ) == Err::<LedgerView, FinishDepositError>(FinishDepositError::ProofUsed),
{
}

/// The ledger only grows: a proof that was consumed stays consumed whatever
/// credit instruction or batch comes next, and is therefore refused by every
/// later credit instruction.
pub proof fn lemma_consumed_stays_consumed(
    state: LedgerView,
    key: Seq<char>,
    data: FinishDepositView,
    batch: MigrationInputView,
)
    requires
        state.used_proofs.contains(key),
    ensures
        finish_deposit_outcome(state, data) matches Ok(after) ==> after.used_proofs.contains(key),
        migrated(state, batch).used_proofs.contains(key),
        data.proof_key == key ==> finish_deposit_outcome(state, data) == Err::<
            LedgerView,
            FinishDepositError,
        >(FinishDepositError::ProofUsed),
{
}

/// A proof that came with a migrated batch is refused by every later credit
/// instruction.
pub proof fn lemma_no_replay_after_migration(
    state: LedgerView,
    batch: MigrationInputView,
    at: int,
    data: FinishDepositView,
)
    requires
        0 <= at < batch.used_proofs.len(),
        data.proof_key == batch.used_proofs[at],
    ensures
        finish_deposit_outcome(migrated(state, batch), data) == Err::<
            LedgerView,
            FinishDepositError,
        >(FinishDepositError::ProofUsed),
{
    assert(batch.used_proofs.contains(batch.used_proofs[at]));
}

impl EthConnectorContract {
    /// The stores hold no account and no proof twice.
    pub open spec fn wf(&self) -> bool {
        self.ft.wf() && self.used_proofs.wf()
    }

    /// The two stores as the contracts see them.
    pub open spec fn ledger(&self) -> LedgerView {
        ledger_view(&self.ft, &self.used_proofs)
    }

    /// A connector without accounts and proofs, nothing paused.
    pub fn new(prover_account: AccountId, eth_custodian_address: Address) -> (contract: Self)
        ensures
            contract.wf(),
            contract.ledger() == empty_ledger(),
            contract.connector.prover_account == prover_account,
            contract.connector.eth_custodian_address == eth_custodian_address,
            contract.connector.paused_mask == 0,
    {
        let contract = Self {
            connector: EthConnector { prover_account, eth_custodian_address, paused_mask: 0 },
            ft: FungibleToken::new(),
            used_proofs: ProofLedger::new(),
        };
        assert(contract.ledger().ft == empty_ledger().ft);
        contract
    }

    /// Whether the proof with identifier `key` was consumed.
    pub fn is_used_proof(&self, key: &String) -> (used: bool)
        ensures
            used == self.ledger().used_proofs.contains(key@),
    {
        self.used_proofs.is_used_proof(key)
    }

    /// Balance of `account_id`, zero for an unknown account.
    pub fn ft_balance_of(&self, account_id: &AccountId) -> (balance: u128)
        requires
            self.wf(),
        ensures
            balance == self.ledger().ft.balance_of(account_id@),
    {
        self.ft.balance_of(account_id)
    }

    /// The total-supply counter.
    pub fn ft_total_supply(&self) -> (supply: u128)
        ensures
            supply == self.ledger().ft.total_supply,
    {
        self.ft.total_supply()
    }

    /// Carry out a credit instruction: where the proof is new and the credit
    /// fits, credit the amount to the new owner and consume the proof. A
    /// refusal leaves the state as it was.
    pub fn finish_deposit(&mut self, data: &FinishDepositCallArgs) -> (res: Result<
        (),
        FinishDepositError,
    >)
        requires
            old(self).wf(),
        ensures
            final(self).wf(),
            final(self).connector == old(self).connector,
            match finish_deposit_outcome(old(self).ledger(), data@) {
                Ok(after) => res is Ok && final(self).ledger() == after,
                Err(e) => res == Err::<(), FinishDepositError>(e) && final(self).ledger() == old(self).ledger(),
            },
            res is Ok && old(self).ledger().ft.supply_consistent() ==> final(self).ledger().ft.supply_consistent(),
    {
        if self.used_proofs.is_used_proof(&data.proof_key) {
            return Err(FinishDepositError::ProofUsed);
        }
        match self.ft.credit(&data.new_owner_id, data.amount) {
            Err(_) => Err(FinishDepositError::Overflow),
            Ok(()) => {
                self.used_proofs.insert(&data.proof_key);
                Ok(())
            },
        }
    }

    /// Write a batch of a snapshot into the stores, for the contract's own
    /// account only: any other caller is refused and nothing is written.
    /// Returns the sum of the batch's amounts, `None` where it exceeds 128
    /// bits.
    pub fn migrate(
        &mut self,
        current_account_id: &AccountId,
        predecessor_account_id: &AccountId,
        data: &MigrationInputData,
    ) -> (res: Result<Option<u128>, PrivateMethodError>)
        requires
            old(self).wf(),
        ensures
            final(self).wf(),
            final(self).connector == old(self).connector,
            current_account_id@ == predecessor_account_id@ ==> res == Ok::<
                Option<u128>,
                PrivateMethodError,
            >(batch_supply_delta(data@.accounts)) && final(self).ledger() == migrated(
                old(self).ledger(),
                data@,
            ),
            current_account_id@ != predecessor_account_id@ ==> res is Err && final(self).ledger()
                == old(self).ledger(),
    {
        if *current_account_id != *predecessor_account_id {
            return Err(PrivateMethodError);
        }
        Ok(migrate(&mut self.ft, &mut self.used_proofs, data))
    }

    /// Compare a batch of a snapshot with the stores. Nothing is written.
    pub fn check_migration_correctness(&self, data: &MigrationInputData) -> (res:
        MigrationCheckResult)
        requires
            self.wf(),
        ensures
            res@ == check_outcome(self.ledger(), data@),
    {
        check_migration_correctness(&self.ft, &self.used_proofs, data)
    }

    /// Replace the mask of paused capabilities. Restricting this call to the
    /// owner is the caller's duty.
    pub fn set_paused_flags(&mut self, paused: PausedMask)
        ensures
            final(self).connector.paused_mask == paused,
            final(self).connector.prover_account == old(self).connector.prover_account,
            final(self).connector.eth_custodian_address == old(self).connector.eth_custodian_address,
            final(self).ft == old(self).ft,
            final(self).used_proofs == old(self).used_proofs,
    {
        self.connector.paused_mask = paused;
    }
}

} // verus!
