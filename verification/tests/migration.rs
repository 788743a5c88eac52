use aurora_eth_connector::connector_impl::FinishDepositCallArgs;
use aurora_eth_connector::contract::{
    EthConnectorContract, FinishDepositError, PrivateMethodError,
};
use aurora_eth_connector::errors::ERR_MIGRATE_PRIVATE;
use aurora_eth_connector::fungible_token::core_impl::{AccountBalance, FungibleToken};
use aurora_eth_connector::migration::{
    check_migration_correctness, migrate, MigrationCheckResult, MigrationInputData,
};
use aurora_eth_connector::proof_ledger::ProofLedger;

fn entry(id: &str, balance: u128) -> AccountBalance {
    AccountBalance { account_id: id.to_string(), balance }
}

fn batch(accounts: Vec<AccountBalance>, proofs: &[&str]) -> MigrationInputData {
    MigrationInputData {
        accounts_eth: accounts,
        total_eth_supply_on_near: None,
        account_storage_usage: None,
        statistics_aurora_accounts_counter: None,
        used_proofs: proofs.iter().map(|p| p.to_string()).collect(),
    }
}

fn counters(supply: u128, usage: u64, counter: u64) -> MigrationInputData {
    MigrationInputData {
        accounts_eth: vec![],
        total_eth_supply_on_near: Some(supply),
        account_storage_usage: Some(usage),
        statistics_aurora_accounts_counter: Some(counter),
        used_proofs: vec![],
    }
}

fn contract() -> EthConnectorContract {
    EthConnectorContract::new("prover.near".to_string(), [7u8; 20])
}

fn own() -> String {
    "connector.near".to_string()
}

#[test]
fn test_migration_access_right() {
    let mut contract = contract();
    let data = MigrationInputData {
        accounts_eth: vec![],
        total_eth_supply_on_near: None,
        account_storage_usage: None,
        statistics_aurora_accounts_counter: None,
        used_proofs: vec![],
    };
    let res = contract.migrate(&own(), &"any.connector.near".to_string(), &data);
    assert!(res.is_err());
    assert_eq!(res, Err(PrivateMethodError));
    assert_eq!(ERR_MIGRATE_PRIVATE, "Method migrate is private");
}

#[test]
fn test_migration() {
    let mut contract = contract();
    let proof_keys: Vec<String> =
        ["148209196192531111581487824716711513123053186167982062461521682161284461208612290809";
            1000]
            .iter()
            .map(|&s| s.into())
            .collect();
    let data = MigrationInputData {
        accounts_eth: vec![],
        total_eth_supply_on_near: None,
        account_storage_usage: None,
        statistics_aurora_accounts_counter: None,
        used_proofs: proof_keys,
    };
    let res = contract.migrate(&own(), &own(), &data);
    assert!(res.is_ok());
    assert!(contract.is_used_proof(
        &"148209196192531111581487824716711513123053186167982062461521682161284461208612290809"
            .to_string()
    ));
    assert_eq!(contract.used_proofs.len(), 1);
    assert_eq!(contract.check_migration_correctness(&data), MigrationCheckResult::Success);
}

#[test]
fn refused_migration_writes_nothing() {
    let mut contract = contract();
    let data = MigrationInputData {
        accounts_eth: vec![entry("a.near", 100)],
        total_eth_supply_on_near: Some(100),
        account_storage_usage: Some(1),
        statistics_aurora_accounts_counter: Some(1),
        used_proofs: vec!["p1".to_string()],
    };
    assert_eq!(contract.migrate(&own(), &"other.near".to_string(), &data), Err(PrivateMethodError));
    assert_eq!(contract.ft_balance_of(&"a.near".to_string()), 0);
    assert_eq!(contract.ft_total_supply(), 0);
    assert_eq!(contract.ft.account_storage_usage(), 0);
    assert_eq!(contract.ft.accounts_counter(), 0);
    assert!(!contract.is_used_proof(&"p1".to_string()));
}

#[test]
fn snapshot_applied_in_one_batch() {
    let mut ft = FungibleToken::new();
    let mut proofs = ProofLedger::new();
    let data = MigrationInputData {
        accounts_eth: vec![entry("A", 100), entry("B", 50)],
        total_eth_supply_on_near: Some(150),
        account_storage_usage: None,
        statistics_aurora_accounts_counter: None,
        used_proofs: vec!["p1".to_string()],
    };
    assert_eq!(migrate(&mut ft, &mut proofs, &data), Some(150));
    assert_eq!(ft.balance_of(&"A".to_string()), 100);
    assert_eq!(ft.balance_of(&"B".to_string()), 50);
    assert_eq!(ft.total_supply(), 150);
    assert!(proofs.is_used_proof(&"p1".to_string()));
    assert_eq!(check_migration_correctness(&ft, &proofs, &data), MigrationCheckResult::Success);

    assert_eq!(migrate(&mut ft, &mut proofs, &data), Some(150));
    assert_eq!(ft.balance_of(&"A".to_string()), 100);
    assert_eq!(ft.balance_of(&"B".to_string()), 50);
    assert_eq!(ft.total_supply(), 150);
    assert!(proofs.is_used_proof(&"p1".to_string()));
    assert_eq!(proofs.len(), 1);
    assert_eq!(check_migration_correctness(&ft, &proofs, &data), MigrationCheckResult::Success);

    ft.accounts_insert(&"B".to_string(), 51);
    assert_eq!(
        check_migration_correctness(&ft, &proofs, &data),
        MigrationCheckResult::AccountAmount {
            account_id: "B".to_string(),
            expected: 50,
            actual: 51
        }
    );
}

#[test]
fn entry_overwrites_and_untouched_accounts_stay() {
    let mut ft = FungibleToken::new();
    let mut proofs = ProofLedger::new();
    assert_eq!(ft.credit(&"A".to_string(), 7), Ok(()));
    assert_eq!(ft.credit(&"C".to_string(), 9), Ok(()));
    let data = batch(vec![entry("A", 100)], &[]);
    assert_eq!(migrate(&mut ft, &mut proofs, &data), Some(100));
    assert_eq!(ft.balance_of(&"A".to_string()), 100);
    assert_eq!(ft.balance_of(&"C".to_string()), 9);
    assert_eq!(ft.total_supply(), 16);
}

#[test]
fn supply_delta_is_sum_or_none() {
    let mut ft = FungibleToken::new();
    let mut proofs = ProofLedger::new();
    assert_eq!(migrate(&mut ft, &mut proofs, &batch(vec![], &[])), Some(0));
    let big = batch(vec![entry("A", u128::MAX), entry("B", 0)], &[]);
    assert_eq!(migrate(&mut ft, &mut proofs, &big), Some(u128::MAX));
    let over = batch(vec![entry("A", u128::MAX), entry("B", 1), entry("C", 5)], &[]);
    assert_eq!(migrate(&mut ft, &mut proofs, &over), None);
    assert_eq!(ft.balance_of(&"A".to_string()), u128::MAX);
    assert_eq!(ft.balance_of(&"B".to_string()), 1);
    assert_eq!(ft.balance_of(&"C".to_string()), 5);
}

#[test]
fn counters_overwrite_only_when_present() {
    let mut ft = FungibleToken::new();
    let mut proofs = ProofLedger::new();
    migrate(&mut ft, &mut proofs, &counters(150, 12, 2));
    assert_eq!(ft.total_supply(), 150);
    assert_eq!(ft.account_storage_usage(), 12);
    assert_eq!(ft.accounts_counter(), 2);
    let mut partial = batch(vec![], &[]);
    partial.account_storage_usage = Some(13);
    migrate(&mut ft, &mut proofs, &partial);
    assert_eq!(ft.total_supply(), 150);
    assert_eq!(ft.account_storage_usage(), 13);
    assert_eq!(ft.accounts_counter(), 2);
}

#[test]
fn two_slicings_give_the_same_stores() {
    let accounts = [("A", 100u128), ("B", 50), ("C", 0), ("D", 7), ("E", 1)];
    let proofs = ["p1", "p2", "p3"];

    let mut one = contract();
    let whole = batch(accounts.iter().map(|(a, v)| entry(a, *v)).collect(), &proofs);
    assert_eq!(one.migrate(&own(), &own(), &whole), Ok(Some(158)));

    let mut two = contract();
    let slices = [
        batch(vec![entry("E", 1), entry("C", 0)], &["p3"]),
        batch(vec![], &["p1"]),
        batch(vec![entry("B", 50), entry("A", 100), entry("D", 7)], &["p2"]),
    ];
    for s in &slices {
        assert!(two.migrate(&own(), &own(), s).is_ok());
    }

    for (a, v) in accounts {
        assert_eq!(one.ft_balance_of(&a.to_string()), v);
        assert_eq!(two.ft_balance_of(&a.to_string()), v);
        assert!(two.ft.contains_account(&a.to_string()));
    }
    for p in proofs {
        assert!(one.is_used_proof(&p.to_string()));
        assert!(two.is_used_proof(&p.to_string()));
    }
    assert_eq!(one.used_proofs.len(), two.used_proofs.len());
    assert_eq!(one.ft_total_supply(), two.ft_total_supply());
    assert_eq!(one.check_migration_correctness(&whole), MigrationCheckResult::Success);
    assert_eq!(two.check_migration_correctness(&whole), MigrationCheckResult::Success);
    for s in &slices {
        assert_eq!(one.check_migration_correctness(s), MigrationCheckResult::Success);
        assert_eq!(two.check_migration_correctness(s), MigrationCheckResult::Success);
    }
}

#[test]
fn check_passes_for_every_applied_batch_and_the_counters() {
    let mut c = contract();
    let slices = [
        batch(vec![entry("A", 100)], &["p1", "p2"]),
        batch(vec![entry("B", 50), entry("C", 3)], &[]),
    ];
    for s in &slices {
        assert!(c.migrate(&own(), &own(), s).is_ok());
    }
    let last = counters(153, 10, 3);
    assert!(c.migrate(&own(), &own(), &last).is_ok());
    for s in &slices {
        assert_eq!(c.check_migration_correctness(s), MigrationCheckResult::Success);
    }
    assert_eq!(c.check_migration_correctness(&last), MigrationCheckResult::Success);

    c.ft.accounts_insert(&"C".to_string(), 4);
    assert_eq!(c.check_migration_correctness(&slices[0]), MigrationCheckResult::Success);
    assert_eq!(
        c.check_migration_correctness(&slices[1]),
        MigrationCheckResult::AccountAmount { account_id: "C".to_string(), expected: 3, actual: 4 }
    );
    c.ft.accounts_insert(&"C".to_string(), 2);
    assert_eq!(
        c.check_migration_correctness(&slices[1]),
        MigrationCheckResult::AccountAmount { account_id: "C".to_string(), expected: 3, actual: 2 }
    );
}

#[test]
fn check_reports_first_failure_in_order() {
    let mut ft = FungibleToken::new();
    let mut proofs = ProofLedger::new();
    let applied = MigrationInputData {
        accounts_eth: vec![entry("A", 1), entry("B", 2)],
        total_eth_supply_on_near: Some(3),
        account_storage_usage: Some(4),
        statistics_aurora_accounts_counter: Some(5),
        used_proofs: vec!["p1".to_string()],
    };
    migrate(&mut ft, &mut proofs, &applied);

    let mut wrong = MigrationInputData {
        accounts_eth: vec![entry("A", 1), entry("X", 0), entry("B", 9)],
        total_eth_supply_on_near: Some(30),
        account_storage_usage: Some(40),
        statistics_aurora_accounts_counter: Some(50),
        used_proofs: vec!["p1".to_string(), "p2".to_string(), "p3".to_string()],
    };
    assert_eq!(
        check_migration_correctness(&ft, &proofs, &wrong),
        MigrationCheckResult::Proof("p2".to_string())
    );
    wrong.used_proofs = vec!["p1".to_string()];
    assert_eq!(
        check_migration_correctness(&ft, &proofs, &wrong),
        MigrationCheckResult::AccountNotExist("X".to_string())
    );
    wrong.accounts_eth.remove(1);
    assert_eq!(
        check_migration_correctness(&ft, &proofs, &wrong),
        MigrationCheckResult::AccountAmount { account_id: "B".to_string(), expected: 9, actual: 2 }
    );
    wrong.accounts_eth.pop();
    assert_eq!(
        check_migration_correctness(&ft, &proofs, &wrong),
        MigrationCheckResult::TotalSupply(3)
    );
    wrong.total_eth_supply_on_near = Some(3);
    assert_eq!(
        check_migration_correctness(&ft, &proofs, &wrong),
        MigrationCheckResult::StorageUsage(4)
    );
    wrong.account_storage_usage = None;
    assert_eq!(
        check_migration_correctness(&ft, &proofs, &wrong),
        MigrationCheckResult::StatisticsCounter(5)
    );
    wrong.statistics_aurora_accounts_counter = Some(5);
    assert_eq!(check_migration_correctness(&ft, &proofs, &wrong), MigrationCheckResult::Success);
}

#[test]
fn check_changes_nothing() {
    let mut c = contract();
    let data = batch(vec![entry("A", 1)], &["p1"]);
    assert_eq!(c.check_migration_correctness(&data), MigrationCheckResult::Proof("p1".to_string()));
    assert!(!c.is_used_proof(&"p1".to_string()));
    assert!(!c.ft.contains_account(&"A".to_string()));
    assert_eq!(c.ft_total_supply(), 0);
}

#[test]
fn migrated_proof_is_refused_by_a_later_deposit() {
    let mut c = contract();
    assert!(c.migrate(&own(), &own(), &batch(vec![], &["p1"])).is_ok());
    let args = FinishDepositCallArgs {
        new_owner_id: "alice.near".to_string(),
        amount: 10,
        proof_key: "p1".to_string(),
        relayer_id: "relayer.near".to_string(),
        fee: 1,
        msg: None,
    };
    assert_eq!(c.finish_deposit(&args), Err(FinishDepositError::ProofUsed));
    assert_eq!(c.ft_balance_of(&"alice.near".to_string()), 0);
    assert_eq!(c.ft_total_supply(), 0);
}

#[test]
fn two_slicings_with_counters_give_the_same_stores() {
    let mut one = contract();
    let whole = MigrationInputData {
        accounts_eth: vec![entry("A", 100), entry("B", 50), entry("C", 0)],
        total_eth_supply_on_near: Some(150),
        account_storage_usage: Some(12),
        statistics_aurora_accounts_counter: Some(3),
        used_proofs: vec!["p1".to_string(), "p2".to_string()],
    };
    assert_eq!(one.migrate(&own(), &own(), &whole), Ok(Some(150)));

    let mut two = contract();
    let mut first = batch(vec![entry("C", 0)], &["p2"]);
    first.account_storage_usage = Some(12);
    let mut second = batch(vec![entry("A", 100)], &[]);
    second.total_eth_supply_on_near = Some(150);
    second.account_storage_usage = Some(12);
    let mut third = batch(vec![entry("B", 50)], &["p1"]);
    third.statistics_aurora_accounts_counter = Some(3);
    for s in [&third, &first, &second] {
        assert!(two.migrate(&own(), &own(), s).is_ok());
    }

    for (a, v) in [("A", Some(100u128)), ("B", Some(50)), ("C", Some(0)), ("D", None)] {
        assert_eq!(one.ft.get_account_eth_balance(&a.to_string()), v);
        assert_eq!(two.ft.get_account_eth_balance(&a.to_string()), v);
    }
    assert_eq!(one.ft_total_supply(), 150);
    assert_eq!(two.ft_total_supply(), 150);
    assert_eq!(one.ft.account_storage_usage(), 12);
    assert_eq!(two.ft.account_storage_usage(), 12);
    assert_eq!(one.ft.accounts_counter(), 3);
    assert_eq!(two.ft.accounts_counter(), 3);
    assert_eq!(one.used_proofs.len(), 2);
    assert_eq!(two.used_proofs.len(), 2);
    assert_eq!(two.check_migration_correctness(&whole), MigrationCheckResult::Success);
}
