use aurora_eth_connector::big_endian::{take_be_u128, take_be_u64};
use aurora_eth_connector::connector_impl::{DepositError, EthConnector};
use aurora_eth_connector::contract::{EthConnectorContract, FinishDepositError};
use aurora_eth_connector::deposit_event::{
    address_from_text, hex_digit, is_valid_account_id, DepositedEvent, MalformedEvent,
    TokenMessageData,
};
use aurora_eth_connector::eth_log::{
    stands_at, take_address, take_event_data, take_log_entry, take_long_header, take_word,
    topics_prefix_bytes, zero_from, DEPOSITED_SIGNATURE, LONG_LIST, LONG_STRING,
};
use aurora_eth_connector::proof_data::{MalformedProof, Proof};
use aurora_eth_connector::wire::{extend, put_framed, take_framed, take_u32, take_u64};

const CUSTODIAN: [u8; 20] = [7u8; 20];
const SENDER: [u8; 20] = [9u8; 20];

const ALICE_ENTRY: &str = "f8fb940707070707070707070707070707070707070707f842a0d142439c278e25dad9a50766f153d0e3d2d7bf2bd16fc2781c4bd494b2b15a9da00000000000000000000000000909090909090909090909090909090909090909b8a0000000000000000000000000000000000000000000000000000000000000006000000000000000000000000000000000000000000000000000000000000000640000000000000000000000000000000000000000000000000000000000000005000000000000000000000000000000000000000000000000000000000000000a616c6963652e6e65617200000000000000000000000000000000000000000000";

const SMALL_PROOF: &str = "0100000000000000030000000102030200000000000000020000000405010000005802000000010000000600000000";

fn unhex(s: &str) -> Vec<u8> {
    (0..s.len() / 2).map(|i| u8::from_str_radix(&s[2 * i..2 * i + 2], 16).unwrap()).collect()
}

fn shortest(mut n: usize) -> Vec<u8> {
    let mut out = vec![];
    while n > 0 {
        out.insert(0, (n % 256) as u8);
        n /= 256;
    }
    out
}

fn header(base: u8, len: usize) -> Vec<u8> {
    let digits = shortest(len);
    let mut out = vec![base + digits.len() as u8];
    out.extend(digits);
    out
}

fn word(n: u128) -> Vec<u8> {
    let mut out = vec![0u8; 16];
    out.extend(n.to_be_bytes());
    out
}

fn event_data(message: &[u8], amount: u128, fee: u128) -> Vec<u8> {
    let mut out = word(96);
    out.extend(word(amount));
    out.extend(word(fee));
    out.extend(word(message.len() as u128));
    out.extend(message);
    out.extend(vec![0u8; (32 - message.len() % 32) % 32]);
    out
}

fn entry_with(data: Vec<u8>) -> Vec<u8> {
    let mut payload = vec![0x94];
    payload.extend(CUSTODIAN);
    payload.extend([0xf8, 0x42, 0xa0]);
    payload.extend(DEPOSITED_SIGNATURE);
    payload.push(0xa0);
    payload.extend([0u8; 12]);
    payload.extend(SENDER);
    payload.extend(header(0xb7, data.len()));
    payload.extend(data);
    let mut out = header(0xf7, payload.len());
    out.extend(payload);
    out
}

fn entry(message: &[u8], amount: u128, fee: u128) -> Vec<u8> {
    entry_with(event_data(message, amount, fee))
}

fn recipient() -> [u8; 20] {
    let mut r = [0u8; 20];
    for (i, b) in r.iter_mut().enumerate() {
        *b = i as u8 + 1;
    }
    r
}

fn small_proof() -> Proof {
    Proof {
        log_index: 1,
        log_entry_data: vec![1, 2, 3],
        receipt_index: 2,
        receipt_data: vec![4, 5],
        header_data: b"X".to_vec(),
        proof: vec![vec![6], vec![]],
    }
}

fn same_proof(a: &Proof, b: &Proof) -> bool {
    a.log_index == b.log_index
        && a.log_entry_data == b.log_entry_data
        && a.receipt_index == b.receipt_index
        && a.receipt_data == b.receipt_data
        && a.header_data == b.header_data
        && a.proof == b.proof
}

fn connector(mask: u8) -> EthConnector {
    EthConnector {
        prover_account: "prover.near".to_string(),
        eth_custodian_address: CUSTODIAN,
        paused_mask: mask,
    }
}

fn raw_proof(log_entry: Vec<u8>, log_index: u64, receipt_index: u64, header: &[u8]) -> Vec<u8> {
    Proof {
        log_index,
        log_entry_data: log_entry,
        receipt_index,
        receipt_data: vec![4, 5],
        header_data: header.to_vec(),
        proof: vec![vec![6], vec![]],
    }
    .try_to_vec()
    .unwrap()
}

#[test]
fn signature_is_the_digest_of_the_event_signature() {
    assert_eq!(
        near_sdk::env::keccak256(b"Deposited(address,string,uint256,uint256)"),
        DEPOSITED_SIGNATURE.to_vec()
    );
}

#[test]
fn framing_reads_what_it_writes() {
    let mut out = vec![9u8];
    extend(&mut out, &[1, 2]);
    assert_eq!(out, vec![9, 1, 2]);
    put_framed(&mut out, &[7, 8, 9]);
    assert_eq!(out, vec![9, 1, 2, 3, 0, 0, 0, 7, 8, 9]);
    assert_eq!(take_framed(&out, 3), Some((vec![7, 8, 9], 10)));
    assert_eq!(take_framed(&out, 4), None);
    assert_eq!(take_framed(&out, 7), None);
    assert_eq!(take_u32(&out, 3), Some((3, 7)));
    assert_eq!(take_u32(&out, 6), Some((0x09080700, 10)));
    assert_eq!(take_u32(&out, 7), None);
    assert_eq!(take_u32(&[1, 2, 3], 0), None);
    assert_eq!(take_u64(&out, 2), Some((0x0908070000000302, 10)));
    assert_eq!(take_u64(&[1, 0, 0, 0, 0, 0, 0, 0], 0), Some((1, 8)));
    assert_eq!(take_u64(&[1, 0, 0, 0, 0, 0, 0], 0), None);
    assert_eq!(take_u64(&out, 3), None);
}

#[test]
fn proof_record_layout() {
    assert_eq!(small_proof().try_to_vec(), Some(unhex(SMALL_PROOF)));
    let read = Proof::try_from_slice(&unhex(SMALL_PROOF)).unwrap();
    assert!(same_proof(&read, &small_proof()));
    let empty = Proof::default();
    let bytes = empty.try_to_vec().unwrap();
    assert_eq!(bytes, vec![0u8; 32]);
    assert!(same_proof(&Proof::try_from_slice(&bytes).unwrap(), &empty));
}

#[test]
fn proof_record_must_fill_the_bytes_exactly() {
    let bytes = unhex(SMALL_PROOF);
    for cut in 0..bytes.len() {
        assert_eq!(Proof::try_from_slice(&bytes[..cut]).err(), Some(MalformedProof));
    }
    let mut longer = bytes.clone();
    longer.push(0);
    assert_eq!(Proof::try_from_slice(&longer).err(), Some(MalformedProof));
    let mut more_segments = bytes.clone();
    let at = bytes.len() - 13;
    assert_eq!(more_segments[at], 2);
    more_segments[at] = 3;
    assert_eq!(Proof::try_from_slice(&more_segments).err(), Some(MalformedProof));
    let mut long_entry = bytes.clone();
    long_entry[8] = 0xff;
    long_entry[11] = 0xff;
    assert_eq!(Proof::try_from_slice(&long_entry).err(), Some(MalformedProof));
}

#[test]
fn big_endian_values() {
    let bytes = [0x01, 0x02, 0x03, 0x04, 0x05, 0x06, 0x07, 0x08, 0x09];
    assert_eq!(take_be_u64(&bytes, 0, 0), 0);
    assert_eq!(take_be_u64(&bytes, 0, 1), 1);
    assert_eq!(take_be_u64(&bytes, 1, 3), 0x0203);
    assert_eq!(take_be_u64(&bytes, 1, 9), 0x0203040506070809);
    assert_eq!(take_be_u64(&[0xff; 8], 0, 8), u64::MAX);
    assert_eq!(take_be_u128(&bytes, 0, 9), 0x010203040506070809);
    assert_eq!(take_be_u128(&[0xff; 16], 0, 16), u128::MAX);
}

#[test]
fn long_headers() {
    assert_eq!(take_long_header(&[0xb8, 56, 0], 0, LONG_STRING), Some((56, 2)));
    assert_eq!(take_long_header(&[0xb8, 55, 0], 0, LONG_STRING), None);
    assert_eq!(take_long_header(&[0xb9, 0x01, 0x00], 0, LONG_STRING), Some((256, 3)));
    assert_eq!(take_long_header(&[0xb9, 0x00, 0xff], 0, LONG_STRING), None);
    assert_eq!(take_long_header(&[0xb9, 0x01], 0, LONG_STRING), None);
    assert_eq!(take_long_header(&[0xb7, 0x01, 0x00], 0, LONG_STRING), None);
    assert_eq!(take_long_header(&[0x80, 0x01, 0x00], 0, LONG_STRING), None);
    assert_eq!(take_long_header(&[0xf8, 0xfb, 0], 0, LONG_STRING), None);
    assert_eq!(take_long_header(&[0xf8, 0xfb, 0], 0, LONG_LIST), Some((251, 2)));
    assert_eq!(take_long_header(&[0, 0xf8, 0xfb], 1, LONG_LIST), Some((251, 3)));
    assert_eq!(take_long_header(&[0, 0xf8, 0xfb], 2, LONG_LIST), None);
    assert_eq!(
        take_long_header(&[0xff, 1, 2, 3, 4, 5, 6, 7, 8], 0, LONG_LIST),
        Some((0x0102030405060708, 9))
    );
    assert_eq!(take_long_header(&[0xbf, 1, 2, 3, 4, 5, 6, 7, 8], 0, LONG_STRING), Some((0x0102030405060708, 9)));
    assert_eq!(take_long_header(&[0xc0, 1, 2, 3, 4, 5, 6, 7, 8, 9], 0, LONG_STRING), None);
}

#[test]
fn words() {
    assert_eq!(take_word(&word(0), 0), Some(0));
    assert_eq!(take_word(&word(96), 0), Some(96));
    assert_eq!(take_word(&word(u128::MAX), 0), Some(u128::MAX));
    let mut big = word(1);
    big[15] = 1;
    assert_eq!(take_word(&big, 0), None);
    big[15] = 0;
    big[0] = 0x80;
    assert_eq!(take_word(&big, 0), None);
    assert_eq!(take_word(&word(5)[1..], 0), None);
    let mut two = word(5);
    two.extend(word(6));
    assert_eq!(take_word(&two, 32), Some(6));
    assert_eq!(take_word(&two, 33), None);
}

#[test]
fn small_helpers() {
    assert!(stands_at(&[1, 2, 3, 4], 1, &[2, 3]));
    assert!(stands_at(&[1, 2, 3, 4], 4, &[]));
    assert!(!stands_at(&[1, 2, 3, 4], 5, &[]));
    assert!(!stands_at(&[1, 2, 3, 4], 1, &[2, 4]));
    assert!(!stands_at(&[1, 2, 3, 4], 3, &[4, 5]));
    assert!(zero_from(&[1, 0, 0], 1));
    assert!(zero_from(&[1, 0, 0], 3));
    assert!(!zero_from(&[1, 0, 2], 1));
    assert_eq!(take_address(&[5u8; 30], 3), [5u8; 20]);
    let prefix = topics_prefix_bytes();
    assert_eq!(prefix.len(), 48);
    assert_eq!(&prefix[..3], &[0xf8, 0x42, 0xa0]);
    assert_eq!(&prefix[3..35], &DEPOSITED_SIGNATURE);
    assert_eq!(&prefix[35..], &[0xa0, 0, 0, 0, 0, 0, 0, 0, 0, 0, 0, 0, 0]);
}

#[test]
fn event_data_layout() {
    let data = event_data(b"alice.near", 100, 5);
    assert_eq!(data.len(), 160);
    assert_eq!(take_event_data(&data, 0), Some((b"alice.near".to_vec(), 100, 5)));
    let exact = event_data(&[b'a'; 32], 1, 0);
    assert_eq!(exact.len(), 160);
    assert_eq!(take_event_data(&exact, 0), Some((vec![b'a'; 32], 1, 0)));
    let empty = event_data(b"", 1, 0);
    assert_eq!(empty.len(), 128);
    assert_eq!(take_event_data(&empty, 0), Some((vec![], 1, 0)));
    let mut shifted = vec![1, 2, 3];
    shifted.extend(data.clone());
    assert_eq!(take_event_data(&shifted, 3), Some((b"alice.near".to_vec(), 100, 5)));
    assert_eq!(take_event_data(&shifted, 0), None);

    let mut dirty = data.clone();
    dirty[159] = 1;
    assert_eq!(take_event_data(&dirty, 0), None);
    let mut place = data.clone();
    place[31] = 128;
    assert_eq!(take_event_data(&place, 0), None);
    let mut longer = data.clone();
    longer.extend([0u8; 32]);
    assert_eq!(take_event_data(&longer, 0), None);
    assert_eq!(take_event_data(&data[..159], 0), None);
    let mut amount = data.clone();
    amount[32] = 1;
    assert_eq!(take_event_data(&amount, 0), None);
}

#[test]
fn log_entry_of_a_deposit() {
    assert_eq!(entry(b"alice.near", 100, 5), unhex(ALICE_ENTRY));
    let raw = take_log_entry(&unhex(ALICE_ENTRY)).unwrap();
    assert_eq!(raw.eth_custodian_address, CUSTODIAN);
    assert_eq!(raw.sender, SENDER);
    assert_eq!(raw.message, b"alice.near");
    assert_eq!(raw.amount, 100);
    assert_eq!(raw.fee, 5);
}

#[test]
fn log_entry_must_match_the_layout_exactly() {
    let good = unhex(ALICE_ENTRY);
    assert!(take_log_entry(&good).is_some());
    for cut in 0..good.len() {
        assert!(take_log_entry(&good[..cut]).is_none());
    }
    let mut longer = good.clone();
    longer.push(0);
    assert!(take_log_entry(&longer).is_none());
    for at in [0usize, 1, 2, 23, 24, 25, 26, 57, 58, 59, 70, 91, 92] {
        let mut bad = good.clone();
        bad[at] ^= 1;
        assert!(take_log_entry(&bad).is_none(), "byte {} changed", at);
    }
    let mut other_sender = good.clone();
    other_sender[71] ^= 1;
    assert!(take_log_entry(&other_sender).is_some());
}

#[test]
fn event_to_near_account() {
    let event = DepositedEvent::from_log_entry_data(&unhex(ALICE_ENTRY)).unwrap();
    assert_eq!(event.eth_custodian_address, CUSTODIAN);
    assert_eq!(event.sender, SENDER);
    assert_eq!(event.amount, 100);
    assert_eq!(event.fee, 5);
    match event.token_message_data {
        TokenMessageData::Near(account) => assert_eq!(account, "alice.near"),
        TokenMessageData::Eth { .. } => panic!("not relayed"),
    }
}

#[test]
fn event_relayed_to_an_address() {
    let texts: [&[u8]; 3] = [
        b"receiver.near:0x0102030405060708090a0b0c0d0e0f1011121314",
        b"receiver.near:0102030405060708090a0b0c0d0e0f1011121314",
        b"receiver.near:0102030405060708090A0B0C0D0E0F1011121314",
    ];
    for text in texts {
        let event = DepositedEvent::from_log_entry_data(&entry(text, u128::MAX, 7)).unwrap();
        assert_eq!(event.amount, u128::MAX);
        assert_eq!(event.fee, 7);
        match event.token_message_data {
            TokenMessageData::Eth { receiver_id, message } => {
                assert_eq!(receiver_id, "receiver.near");
                assert_eq!(message.relayer, "receiver.near");
                assert_eq!(message.recipient, recipient());
                assert_eq!(message.fee, 7);
            },
            TokenMessageData::Near(_) => panic!("relayed"),
        }
    }
}

#[test]
fn malformed_events() {
    let texts: [&[u8]; 14] = [
        b"",
        b"a",
        b"Alice.near",
        b"alice..near",
        b".alice",
        b"alice-",
        b"alice near",
        b"alice.near:",
        b"alice.near:0x01",
        b"a:b:c",
        b"alice.near:0102030405060708090a0b0c0d0e0f101112131g",
        b"alice.near:0X0102030405060708090a0b0c0d0e0f1011121314",
        b"alice.near:0102030405060708090a0b0c0d0e0f10111213141",
        b":0102030405060708090a0b0c0d0e0f1011121314",
    ];
    for text in texts {
        assert_eq!(
            DepositedEvent::from_log_entry_data(&entry(text, 100, 5)).err(),
            Some(MalformedEvent)
        );
    }
    assert_eq!(
        DepositedEvent::from_log_entry_data(&entry("alicé.near".as_bytes(), 100, 5)).err(),
        Some(MalformedEvent)
    );
    assert_eq!(DepositedEvent::from_log_entry_data(&[]).err(), Some(MalformedEvent));
    let mut amount_too_big = event_data(b"alice.near", 100, 5);
    amount_too_big[47] = 1;
    assert_eq!(
        DepositedEvent::from_log_entry_data(&entry_with(amount_too_big)).err(),
        Some(MalformedEvent)
    );
    let long = [b'a'; 65];
    assert_eq!(
        DepositedEvent::from_log_entry_data(&entry(&long, 100, 5)).err(),
        Some(MalformedEvent)
    );
    assert!(DepositedEvent::from_log_entry_data(&entry(&long[..64], 100, 5)).is_ok());
    assert!(DepositedEvent::from_log_entry_data(&entry(b"ab", 100, 5)).is_ok());
}

#[test]
fn account_identifiers() {
    for good in ["ab", "alice.near", "a-b_c.d", "0x", "100", "a.b.c.d", "bridge-1.factory_2"] {
        assert!(is_valid_account_id(good.as_bytes()), "{}", good);
    }
    assert!(is_valid_account_id(&[b'z'; 64]));
    for bad in ["", "a", "A.near", "a..b", "a.-b", "a__b", "-ab", "ab-", ".ab", "ab.", "a b", "a:b", "a@b", "a/b"] {
        assert!(!is_valid_account_id(bad.as_bytes()), "{}", bad);
    }
    assert!(!is_valid_account_id(&[b'z'; 65]));
    assert!(!is_valid_account_id(&[b'a', 0xc3, 0xa9]));
}

#[test]
fn account_identifiers_agree_with_the_sdk() {
    for text in ["ab", "alice.near", "a-b_c.d", "", "a", "A.near", "a..b", "a.-b", "-ab", "ab-", "a b", "0x"] {
        assert_eq!(
            is_valid_account_id(text.as_bytes()),
            near_sdk::AccountId::validate(text).is_ok(),
            "{}",
            text
        );
    }
}

#[test]
fn hexadecimal_addresses() {
    assert_eq!(hex_digit(b'0'), Some(0));
    assert_eq!(hex_digit(b'9'), Some(9));
    assert_eq!(hex_digit(b'a'), Some(10));
    assert_eq!(hex_digit(b'f'), Some(15));
    assert_eq!(hex_digit(b'A'), Some(10));
    assert_eq!(hex_digit(b'F'), Some(15));
    assert_eq!(hex_digit(b'g'), None);
    assert_eq!(hex_digit(b'G'), None);
    assert_eq!(hex_digit(b'/'), None);
    assert_eq!(hex_digit(b':'), None);
    assert_eq!(hex_digit(b'@'), None);
    assert_eq!(hex_digit(b'`'), None);
    assert_eq!(
        address_from_text(b"0102030405060708090a0b0c0d0e0f1011121314"),
        Some(recipient())
    );
    assert_eq!(
        address_from_text(b"0x0102030405060708090a0b0c0d0e0f1011121314"),
        Some(recipient())
    );
    assert_eq!(address_from_text(b"ffffffffffffffffffffffffffffffffffffffff"), Some([0xff; 20]));
    assert_eq!(address_from_text(b"FFFFFFFFFFFFFFFFFFFFffffffffffffffffffff"), Some([0xff; 20]));
    assert_eq!(address_from_text(b"0x01020304050607080910111213141516171819"), None);
    assert_eq!(address_from_text(b"1x0102030405060708090a0b0c0d0e0f1011121314"), None);
    assert_eq!(address_from_text(b"010203040506070809101112131415161718192"), None);
    assert_eq!(address_from_text(b""), None);
    assert_eq!(address_from_text(b"0x"), None);
}

#[test]
fn deposit_from_the_bytes_of_a_proof() {
    let c = connector(0);
    let bytes = raw_proof(unhex(ALICE_ENTRY), 1, 2, b"X");
    let res = c
        .deposit(&"connector.near".to_string(), &"relayer.near".to_string(), &bytes)
        .unwrap();
    assert_eq!(res.new_owner_id, "alice.near");
    assert_eq!(res.amount, 100);
    assert_eq!(
        res.proof_key,
        "001098038167253005061121079135249076118185138193077162151102111180218202142099183106183106124131"
    );
    assert_eq!(res.relayer_id, "relayer.near");
    assert_eq!(res.fee, 5);
    assert_eq!(res.msg, None);
}

#[test]
fn deposit_refusals_from_bytes() {
    let current = "connector.near".to_string();
    let relayer = "relayer.near".to_string();
    let good = raw_proof(unhex(ALICE_ENTRY), 1, 2, b"X");
    assert_eq!(
        connector(1).deposit(&current, &relayer, &good).err(),
        Some(DepositError::Paused)
    );
    assert_eq!(connector(1).deposit(&current, &relayer, &[]).err(), Some(DepositError::Paused));
    assert!(connector(1).deposit(&current, &current, &good).is_ok());
    assert_eq!(
        connector(0).deposit(&current, &relayer, &good[..good.len() - 1]).err(),
        Some(DepositError::MalformedProof)
    );
    assert_eq!(
        connector(0).deposit(&current, &relayer, &raw_proof(vec![1, 2, 3], 1, 2, b"X")).err(),
        Some(DepositError::MalformedEvent)
    );
    let mut other = connector(0);
    other.eth_custodian_address = [8u8; 20];
    assert_eq!(
        other.deposit(&current, &relayer, &good).err(),
        Some(DepositError::CustodianAddressMismatch)
    );
    for (amount, fee) in [(5u128, 5u128), (5, 6), (0, 0)] {
        let bytes = raw_proof(entry(b"alice.near", amount, fee), 1, 2, b"X");
        assert_eq!(
            connector(0).deposit(&current, &relayer, &bytes).err(),
            Some(DepositError::InsufficientAmountForFee)
        );
    }
}

#[test]
fn same_proof_twice_is_replay() {
    let mut contract = EthConnectorContract::new("prover.near".to_string(), CUSTODIAN);
    let current = "connector.near".to_string();
    let relayer = "relayer.near".to_string();
    let x = [0x58u8];
    let bytes = raw_proof(unhex(ALICE_ENTRY), 1, 2, &x);
    let first = contract.connector.deposit(&current, &relayer, &bytes).unwrap();
    assert_eq!(contract.finish_deposit(&first), Ok(()));
    let second = contract.connector.deposit(&current, &relayer, &bytes).unwrap();
    assert_eq!(contract.finish_deposit(&second), Err(FinishDepositError::ProofUsed));
    assert_eq!(contract.ft_balance_of(&"alice.near".to_string()), 100);
    assert_eq!(contract.ft_total_supply(), 100);

    let other_entry = raw_proof(entry(b"bob.near", 40, 1), 1, 2, &x);
    let third = contract.connector.deposit(&current, &relayer, &other_entry).unwrap();
    assert_eq!(contract.finish_deposit(&third), Err(FinishDepositError::ProofUsed));
    assert_eq!(contract.ft_balance_of(&"bob.near".to_string()), 0);

    let other_proof = raw_proof(entry(b"bob.near", 40, 1), 2, 2, &x);
    let fourth = contract.connector.deposit(&current, &relayer, &other_proof).unwrap();
    assert_eq!(contract.finish_deposit(&fourth), Ok(()));
    assert_eq!(contract.ft_balance_of(&"bob.near".to_string()), 40);
    assert_eq!(contract.ft_total_supply(), 140);
}

#[test]
fn addresses_agree_with_the_engine() {
    let texts = [
        "0102030405060708090a0b0c0d0e0f1011121314",
        "0102030405060708090A0B0C0D0E0F1011121314",
        "ffffffffffffffffffffffffffffffffffffffff",
        "0102030405060708090a0b0c0d0e0f101112131g",
        "0102030405060708090a0b0c0d0e0f10111213",
        "0102030405060708090a0b0c0d0e0f10111213 4",
        "",
    ];
    for text in texts {
        let engine = aurora_engine_types::types::Address::decode(text)
            .ok()
            .map(|address| address.as_bytes().to_vec());
        let ours = address_from_text(text.as_bytes()).map(|address| address.to_vec());
        assert_eq!(ours, engine, "{}", text);
    }
}
