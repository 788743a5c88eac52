use aurora_eth_connector::admin_controlled::{PAUSE_DEPOSIT, PAUSE_WITHDRAW};
use aurora_eth_connector::connector_impl::{
    DepositError, EthConnector, FinishDepositCallArgs, TransferCallCallArgs,
};
use aurora_eth_connector::contract::{EthConnectorContract, FinishDepositError};
use aurora_eth_connector::deposit_event::{
    same_address, DepositedEvent, FtTransferMessageData, TokenMessageData,
};
use aurora_eth_connector::proof_data::{key_from_digest, Proof, DIGEST_LENGTH, KEY_LENGTH};
use aurora_eth_connector::text::{digit_str, push_decimal, push_hex};

const CUSTODIAN: [u8; 20] = [7u8; 20];

fn recipient() -> [u8; 20] {
    let mut r = [0u8; 20];
    for (i, b) in r.iter_mut().enumerate() {
        *b = i as u8 + 1;
    }
    r
}

fn connector(mask: u8) -> EthConnector {
    EthConnector {
        prover_account: "prover.near".to_string(),
        eth_custodian_address: CUSTODIAN,
        paused_mask: mask,
    }
}

fn near_event(amount: u128, fee: u128) -> DepositedEvent {
    DepositedEvent {
        eth_custodian_address: CUSTODIAN,
        sender: [9u8; 20],
        token_message_data: TokenMessageData::Near("alice.near".to_string()),
        amount,
        fee,
    }
}

fn eth_event(amount: u128, fee: u128) -> DepositedEvent {
    DepositedEvent {
        eth_custodian_address: CUSTODIAN,
        sender: [9u8; 20],
        token_message_data: TokenMessageData::Eth {
            receiver_id: "receiver.near".to_string(),
            message: FtTransferMessageData {
                relayer: "relayer.near".to_string(),
                recipient: recipient(),
                fee,
            },
        },
        amount,
        fee,
    }
}

fn unhex(s: &str) -> Vec<u8> {
    (0..s.len() / 2).map(|i| u8::from_str_radix(&s[2 * i..2 * i + 2], 16).unwrap()).collect()
}

fn make_proof(log_index: u64, receipt_index: u64, header: &[u8]) -> Proof {
    Proof {
        log_index,
        log_entry_data: vec![1, 2, 3],
        receipt_index,
        receipt_data: vec![4, 5],
        header_data: header.to_vec(),
        proof: vec![vec![6], vec![]],
    }
}

const PAYLOAD_HEX: &str = "0d00000072656365697665722e6e65617264000000000000000000000000000000007500000072656c617965722e6e6561723a3035303030303030303030303030303030303030303030303030303030303030303030303030303030303030303030303030303030303030303030303030303030313032303330343035303630373038303930613062306330643065306631303131313231333134";

#[test]
fn digits_and_bytes_as_text() {
    assert_eq!(digit_str(0), "0");
    assert_eq!(digit_str(9), "9");
    assert_eq!(digit_str(10), "a");
    assert_eq!(digit_str(15), "f");
    let mut s = String::from("x");
    push_decimal(&mut s, 0);
    push_decimal(&mut s, 7);
    push_decimal(&mut s, 10);
    push_decimal(&mut s, 99);
    push_decimal(&mut s, 100);
    push_decimal(&mut s, 205);
    push_decimal(&mut s, 255);
    assert_eq!(s, "x000007010099100205255");
    let mut h = String::new();
    push_hex(&mut h, &[0x00, 0x0f, 0xa0, 0xff, 0x3c]);
    assert_eq!(h, "000fa0ff3c");
}

#[test]
fn key_from_digest_is_three_digits_for_each_byte() {
    assert_eq!(key_from_digest(&[]), "");
    assert_eq!(key_from_digest(&[0, 9, 10, 99, 100, 255]), "000009010099100255");
    assert_eq!(key_from_digest(&[1, 23]), "001023");
    assert_eq!(key_from_digest(&[12, 3]), "012003");
    assert_eq!(key_from_digest(&[0; 32]).len(), 96);
    assert_eq!(key_from_digest(&[255; 32]).len(), 96);
    assert_eq!(key_from_digest(&[0; 32]), "0".repeat(96));
    assert_eq!(key_from_digest(&[255; 32]), "255".repeat(32));
}

#[test]
fn get_key_hashes_indices_and_header() {
    assert_eq!(
        make_proof(1, 2, b"X").get_key(),
        "001098038167253005061121079135249076118185138193077162151102111180218202142099183106183106124131"
    );
    assert_eq!(
        make_proof(1, 2, &[1, 2, 3]).get_key(),
        "141013050046109226076160093167161064065015121041109186079224214246150123145062247231172035072180"
    );
    assert_eq!(
        Proof::default().get_key(),
        "055071008255247113157213151158200117213108210040111109060247236049122059037099042171040236055187"
    );
}

#[test]
fn get_key_has_one_length_for_all_proofs() {
    assert_eq!(KEY_LENGTH, 96);
    assert_eq!(DIGEST_LENGTH, 32);
    for header in [&b""[..], b"X", &[0u8; 100], &[255u8; 7]] {
        for (log_index, receipt_index) in [(0u64, 0u64), (1, 2), (u64::MAX, 7)] {
            let key = make_proof(log_index, receipt_index, header).get_key();
            assert_eq!(key.len(), KEY_LENGTH);
            assert!(key.bytes().all(|b| b.is_ascii_digit()));
        }
    }
}

#[test]
fn get_key_ignores_the_other_fields() {
    let a = make_proof(1, 2, b"X");
    let mut b = make_proof(1, 2, b"X");
    b.log_entry_data = vec![];
    b.receipt_data = vec![9; 40];
    b.proof = vec![];
    assert_eq!(a.get_key(), b.get_key());
    assert_ne!(a.get_key(), make_proof(2, 1, b"X").get_key());
    assert_ne!(a.get_key(), make_proof(1, 2, b"Y").get_key());
}

#[test]
fn same_address_compares_all_bytes() {
    let mut other = CUSTODIAN;
    assert!(same_address(&CUSTODIAN, &other));
    other[19] = 8;
    assert!(!same_address(&CUSTODIAN, &other));
    other[19] = 7;
    other[0] = 0;
    assert!(!same_address(&CUSTODIAN, &other));
}

#[test]
fn forwarding_message_text() {
    let m = FtTransferMessageData {
        relayer: "relayer.near".to_string(),
        recipient: recipient(),
        fee: 5,
    };
    assert_eq!(
        m.encode(),
        "relayer.near:05000000000000000000000000000000000000000000000000000000000000000102030405060708090a0b0c0d0e0f1011121314"
    );
}

#[test]
fn transfer_call_args_layout() {
    let args = TransferCallCallArgs {
        receiver_id: "receiver.near".to_string(),
        amount: 100,
        memo: None,
        msg: "relayer.near:05000000000000000000000000000000000000000000000000000000000000000102030405060708090a0b0c0d0e0f1011121314".to_string(),
    };
    assert_eq!(args.try_to_vec(), Some(unhex(PAYLOAD_HEX)));
    let with_memo = TransferCallCallArgs {
        receiver_id: "a".to_string(),
        amount: 0x0102,
        memo: Some("hi".to_string()),
        msg: String::new(),
    };
    let mut expected = vec![1, 0, 0, 0, b'a', 2, 1];
    expected.extend([0u8; 14]);
    expected.extend([1, 2, 0, 0, 0, b'h', b'i', 0, 0, 0, 0]);
    assert_eq!(with_memo.try_to_vec(), Some(expected));
}

#[test]
fn deposit_to_near_account() {
    let c = connector(0);
    let res = c
        .deposit_event(
            &"connector.near".to_string(),
            &"relayer.near".to_string(),
            near_event(100, 5),
            "key".to_string(),
        )
        .unwrap();
    assert_eq!(res.new_owner_id, "alice.near");
    assert_eq!(res.amount, 100);
    assert_eq!(res.proof_key, "key");
    assert_eq!(res.relayer_id, "relayer.near");
    assert_eq!(res.fee, 5);
    assert_eq!(res.msg, None);
}

#[test]
fn deposit_relayed_to_self_with_payload() {
    let c = connector(0);
    let res = c
        .deposit_event(
            &"connector.near".to_string(),
            &"relayer.near".to_string(),
            eth_event(100, 5),
            "key".to_string(),
        )
        .unwrap();
    assert_eq!(res.new_owner_id, "connector.near");
    assert_eq!(res.amount, 100);
    assert_eq!(res.proof_key, "key");
    assert_eq!(res.relayer_id, "relayer.near");
    assert_eq!(res.fee, 5);
    assert_eq!(res.msg, Some(unhex(PAYLOAD_HEX)));
}

#[test]
fn deposit_paused_unless_owner() {
    let c = connector(PAUSE_DEPOSIT);
    let res = c.deposit_event(
        &"connector.near".to_string(),
        &"relayer.near".to_string(),
        near_event(100, 5),
        "key".to_string(),
    );
    assert_eq!(res.err(), Some(DepositError::Paused));
    let own = c.deposit_event(
        &"connector.near".to_string(),
        &"connector.near".to_string(),
        near_event(100, 5),
        "key".to_string(),
    );
    assert!(own.is_ok());
    let other_flag = connector(PAUSE_WITHDRAW).deposit_event(
        &"connector.near".to_string(),
        &"relayer.near".to_string(),
        near_event(100, 5),
        "key".to_string(),
    );
    assert!(other_flag.is_ok());
}

#[test]
fn deposit_with_foreign_custodian_is_refused() {
    let c = connector(0);
    let mut event = near_event(100, 5);
    event.eth_custodian_address[3] = 0;
    let res = c.deposit_event(
        &"connector.near".to_string(),
        &"relayer.near".to_string(),
        event,
        "key".to_string(),
    );
    assert_eq!(res.err(), Some(DepositError::CustodianAddressMismatch));
}

#[test]
fn deposit_with_fee_not_below_amount_is_refused() {
    let c = connector(0);
    for (amount, fee) in [(5u128, 5u128), (5, 6), (0, 0), (0, 1), (u128::MAX, u128::MAX), (1, u128::MAX)] {
        let res = c.deposit_event(
            &"connector.near".to_string(),
            &"relayer.near".to_string(),
            near_event(amount, fee),
            "key".to_string(),
        );
        assert_eq!(res.err(), Some(DepositError::InsufficientAmountForFee));
        let res = c.deposit_event(
            &"connector.near".to_string(),
            &"relayer.near".to_string(),
            eth_event(amount, fee),
            "key".to_string(),
        );
        assert_eq!(res.err(), Some(DepositError::InsufficientAmountForFee));
    }
    let ok = c.deposit_event(
        &"connector.near".to_string(),
        &"relayer.near".to_string(),
        near_event(6, 5),
        "key".to_string(),
    );
    assert!(ok.is_ok());
}

#[test]
fn deposit_errors_in_order() {
    let c = connector(PAUSE_DEPOSIT);
    let mut event = near_event(5, 5);
    event.eth_custodian_address = [0u8; 20];
    let res = c.deposit_event(
        &"connector.near".to_string(),
        &"relayer.near".to_string(),
        event,
        "key".to_string(),
    );
    assert_eq!(res.err(), Some(DepositError::Paused));
    let mut event = near_event(5, 5);
    event.eth_custodian_address = [0u8; 20];
    let res = connector(0).deposit_event(
        &"connector.near".to_string(),
        &"relayer.near".to_string(),
        event,
        "key".to_string(),
    );
    assert_eq!(res.err(), Some(DepositError::CustodianAddressMismatch));
}

fn finish_args(owner: &str, amount: u128, key: String) -> FinishDepositCallArgs {
    FinishDepositCallArgs {
        new_owner_id: owner.to_string(),
        amount,
        proof_key: key,
        relayer_id: "relayer.near".to_string(),
        fee: 1,
        msg: None,
    }
}

#[test]
fn proof_used_twice_in_one_deposit_flow_is_replay() {
    let mut contract = EthConnectorContract::new("prover.near".to_string(), CUSTODIAN);
    let p = make_proof(1, 2, b"X");
    let current = "connector.near".to_string();
    let relayer = "relayer.near".to_string();
    let first = contract
        .connector
        .deposit_event(&current, &relayer, near_event(100, 5), p.get_key())
        .unwrap();
    assert_eq!(contract.finish_deposit(&first), Ok(()));
    assert_eq!(contract.ft_balance_of(&"alice.near".to_string()), 100);
    assert_eq!(contract.ft_total_supply(), 100);
    assert!(contract.is_used_proof(&p.get_key()));

    let second = contract
        .connector
        .deposit_event(&current, &relayer, near_event(100, 5), p.get_key())
        .unwrap();
    assert_eq!(contract.finish_deposit(&second), Err(FinishDepositError::ProofUsed));
    assert_eq!(contract.ft_balance_of(&"alice.near".to_string()), 100);
    assert_eq!(contract.ft_total_supply(), 100);
}

#[test]
fn replayed_proof_changes_no_balance_whatever_it_carries() {
    let mut contract = EthConnectorContract::new("prover.near".to_string(), CUSTODIAN);
    assert_eq!(contract.finish_deposit(&finish_args("alice.near", 10, "p".to_string())), Ok(()));
    assert_eq!(
        contract.finish_deposit(&finish_args("bob.near", 77, "p".to_string())),
        Err(FinishDepositError::ProofUsed)
    );
    assert_eq!(contract.ft_balance_of(&"bob.near".to_string()), 0);
    assert_eq!(contract.ft_balance_of(&"alice.near".to_string()), 10);
    assert_eq!(contract.ft_total_supply(), 10);
    assert_eq!(contract.finish_deposit(&finish_args("bob.near", 77, "q".to_string())), Ok(()));
    assert_eq!(contract.ft_total_supply(), 87);
}

#[test]
fn finish_deposit_overflow_leaves_proof_unused() {
    let mut contract = EthConnectorContract::new("prover.near".to_string(), CUSTODIAN);
    assert_eq!(
        contract.finish_deposit(&finish_args("alice.near", u128::MAX, "p".to_string())),
        Ok(())
    );
    assert_eq!(
        contract.finish_deposit(&finish_args("bob.near", 1, "q".to_string())),
        Err(FinishDepositError::Overflow)
    );
    assert!(!contract.is_used_proof(&"q".to_string()));
    assert_eq!(contract.ft_balance_of(&"bob.near".to_string()), 0);
    assert_eq!(contract.ft_total_supply(), u128::MAX);
}

#[test]
fn contract_pause_mask_is_replaced() {
    let mut contract = EthConnectorContract::new("prover.near".to_string(), CUSTODIAN);
    assert_eq!(contract.connector.paused_mask, 0);
    contract.set_paused_flags(PAUSE_DEPOSIT);
    assert_eq!(contract.connector.paused_mask, 1);
    assert_eq!(contract.connector.prover_account, "prover.near");
}
