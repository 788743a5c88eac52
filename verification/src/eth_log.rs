//! The log entry of a deposit on the other chain: a list of the emitting
//! address, the topics and the event's data, each behind a header that gives
//! its length.

use crate::big_endian::{
    be_fixed, be_min, be_value, lemma_be_fixed, lemma_be_fixed_of_value, lemma_be_min,
    lemma_be_min_of_value, lemma_be_value_bound, lemma_pow256, lemma_pow256_le, pow256,
    take_be_u128, take_be_u64,
};
use crate::deposit_event::Address;
use crate::wire::{extend, has_at, lemma_has_at_concat};
use vstd::slice::{slice_subrange, slice_to_vec};
use vstd::prelude::*;

verus! {

/// First byte of the header of a byte string of more than 55 bytes, less the
/// number of bytes that give its length.
pub const LONG_STRING: u8 = 0xb7;

/// First byte of the header of a list of more than 55 bytes, less the number
/// of bytes that give its length.
pub const LONG_LIST: u8 = 0xf7;

/// `count` zero bytes.
pub open spec fn zeros(count: nat) -> Seq<u8> {
    Seq::new(count, |i: int| 0u8)
}

/// The header of an item of `len` bytes, more than 55: a byte that says how
/// many bytes give the length, then the length in as few bytes as it needs.
pub open spec fn long_header(base: u8, len: nat) -> Seq<u8> {
    seq![(base as nat + be_min(len).len()) as u8] + be_min(len)
}

/// The length that the header at `at` gives, with the position behind the
/// header.
pub open spec fn read_long_header(bytes: Seq<u8>, at: int, base: u8) -> Option<(nat, int)> {
    if 0 <= at && at + 1 < bytes.len() {
        let width = bytes[at] as int - base as int;
        if 1 <= width <= 8 && at + 1 + width <= bytes.len() && bytes[at + 1] != 0 && be_value(
            bytes.subrange(at + 1, at + 1 + width),
        ) > 55 {
            Some((be_value(bytes.subrange(at + 1, at + 1 + width)), at + 1 + width))
        } else {
            None
        }
    } else {
        None
    }
}

/// The header that was read is the header of the length that was read.
pub proof fn lemma_long_header_sound(bytes: Seq<u8>, at: int, base: u8)
    requires
        base <= 0xf7,
    ensures
        read_long_header(bytes, at, base) matches Some((len, next)) ==> {
            &&& 55 < len < pow256(8)
            &&& has_at(bytes, at, long_header(base, len))
            &&& next == at + long_header(base, len).len()
            &&& next <= bytes.len()
        },
{
    if read_long_header(bytes, at, base) is Some {
        let width = bytes[at] as int - base as int;
        let digits = bytes.subrange(at + 1, at + 1 + width);
        assert(digits[0] == bytes[at + 1]);
        lemma_be_min_of_value(digits);
        lemma_be_value_bound(digits);
        lemma_pow256_le(digits.len(), 8);
        assert(bytes.subrange(at, at + 1 + width) =~= long_header(base, be_value(digits)));
    }
}

/// The header of a length is read as that length.
pub proof fn lemma_long_header_complete(bytes: Seq<u8>, at: int, base: u8, len: nat)
    requires
        base <= 0xf7,
        55 < len < pow256(8),
        has_at(bytes, at, long_header(base, len)),
    ensures
        read_long_header(bytes, at, base) == Some((len, at + long_header(base, len).len())),
        long_header(base, len).len() == 1 + be_min(len).len(),
        2 <= long_header(base, len).len() <= 9,
{
    lemma_be_min(len, 8);
    let header = long_header(base, len);
    let digits = be_min(len);
    assert(bytes[at] == bytes.subrange(at, at + header.len())[0]);
    assert(header[0] == (base as nat + digits.len()) as u8);
    assert(bytes.subrange(at + 1, at + 1 + digits.len()) =~= digits) by {
        assert(bytes.subrange(at + 1, at + 1 + digits.len()) =~= bytes.subrange(
            at,
            at + header.len(),
        ).subrange(1, 1 + digits.len() as int));
        assert(header.subrange(1, 1 + digits.len() as int) =~= digits);
    }
    assert(bytes[at + 1] == bytes.subrange(at + 1, at + 1 + digits.len())[0]);
}

/// Read the header at `at`.
pub fn take_long_header(bytes: &[u8], at: usize, base: u8) -> (res: Option<(u64, usize)>)
    requires
        base <= 0xf7,
    ensures
        match res {
            Some((len, next)) => read_long_header(bytes@, at as int, base) == Some(
                (len as nat, next as int),
            ),
            None => read_long_header(bytes@, at as int, base) is None,
        },
{
    if bytes.len() < 2 || at > bytes.len() - 2 {
        return None;
    }
    let first = bytes[at];
    if first <= base || first - base > 8 {
        return None;
    }
    let width = (first - base) as usize;
    if width > bytes.len() - at - 1 {
        return None;
    }
    if bytes[at + 1] == 0 {
        return None;
    }
    let len = take_be_u64(bytes, at + 1, at + 1 + width);
    if len <= 55 {
        return None;
    }
    Some((len, at + 1 + width))
}

/// The integer of the 32-byte word at `at`, where it fits in 128 bits.
pub open spec fn read_word(bytes: Seq<u8>, at: int) -> Option<u128> {
    if 0 <= at && at + 32 <= bytes.len() && be_value(bytes.subrange(at, at + 32)) <= u128::MAX {
        Some(be_value(bytes.subrange(at, at + 32)) as u128)
    } else {
        None
    }
}

/// The integer of two runs of bytes joined.
pub proof fn lemma_be_value_concat(high: Seq<u8>, low: Seq<u8>)
    ensures
        be_value(high + low) == be_value(high) * pow256(low.len()) + be_value(low),
    decreases low.len(),
{
    if low.len() == 0 {
        assert(high + low =~= high);
        assert(pow256(low.len()) == 1);
        assert(be_value(high) * 1 == be_value(high));
    } else {
        lemma_be_value_concat(high, low.drop_last());
        assert((high + low).drop_last() =~= high + low.drop_last());
        assert((high + low).last() == low.last());
        let h = be_value(high);
        let p = pow256((low.len() - 1) as nat);
        let l = be_value(low.drop_last());
        assert((h * p + l) * 256 == h * (256 * p) + l * 256) by (nonlinear_arith);
        assert(h * pow256(low.len()) == h * (256 * p));
    }
}

/// Bytes stand for zero exactly when all of them are zero.
pub proof fn lemma_be_value_zero(bytes: Seq<u8>)
    ensures
        be_value(bytes) == 0 <==> forall|i: int| 0 <= i < bytes.len() ==> bytes[i] == 0,
    decreases bytes.len(),
{
    if bytes.len() > 0 {
        let init = bytes.drop_last();
        lemma_be_value_zero(init);
        if be_value(bytes) == 0 {
            assert forall|i: int| 0 <= i < bytes.len() implies bytes[i] == 0 by {
                if i < init.len() {
                    assert(init[i] == bytes[i]);
                }
            }
        }
        if forall|i: int| 0 <= i < bytes.len() ==> bytes[i] == 0 {
            assert forall|i: int| 0 <= i < init.len() implies init[i] == 0 by {
                assert(init[i] == bytes[i]);
            }
        }
    }
}

/// A word is read as an integer exactly where it is the 32-byte writing of
/// that integer.
pub proof fn lemma_word(bytes: Seq<u8>, at: int)
    ensures
        read_word(bytes, at) matches Some(v) ==> has_at(bytes, at, be_fixed(v as nat, 32)),
        forall|v: u128| #[trigger]
            has_at(bytes, at, be_fixed(v as nat, 32)) ==> read_word(bytes, at) == Some(v),
{
    lemma_pow256();
    lemma_pow256_le(16, 32);
    if 0 <= at && at + 32 <= bytes.len() {
        lemma_be_fixed_of_value(bytes.subrange(at, at + 32));
    }
    assert forall|v: u128| #[trigger] has_at(bytes, at, be_fixed(v as nat, 32)) implies read_word(
        bytes,
        at,
    ) == Some(v) by {
        lemma_be_fixed(v as nat, 32);
    }
}

/// Read the 32-byte word at `at` as an integer of 128 bits.
pub fn take_word(bytes: &[u8], at: usize) -> (res: Option<u128>)
    ensures
        res == read_word(bytes@, at as int),
{
    if bytes.len() < 32 || at > bytes.len() - 32 {
        return None;
    }
    let ghost high = bytes@.subrange(at as int, at + 16);
    let ghost low = bytes@.subrange(at + 16, at + 32);
    proof {
        assert(bytes@.subrange(at as int, at + 32) =~= high + low);
        lemma_be_value_concat(high, low);
        lemma_be_value_bound(low);
        lemma_pow256();
    }
    let mut i: usize = 0;
    while i < 16
        invariant
            i <= 16,
            at <= usize::MAX - 32,
            at + 32 <= bytes@.len(),
            high == bytes@.subrange(at as int, at + 16),
            forall|j: int| 0 <= j < i ==> high[j] == 0,
        decreases 16 - i,
    {
        if bytes[at + i] != 0 {
            proof {
                assert(high[i as int] != 0);
                let low = bytes@.subrange(at + 16, at + 32);
                assert(bytes@.subrange(at as int, at + 32) =~= high + low);
                lemma_be_value_concat(high, low);
                lemma_be_value_zero(high);
                lemma_pow256();
                let h = be_value(high);
                let p = pow256(16);
                assert(h * p >= p) by (nonlinear_arith)
                    requires
                        h >= 1,
                        p > 0,
                ;
            }
            return None;
        }
        i += 1;
    }
    proof {
        lemma_be_value_zero(high);
        assert(be_value(high) == 0);
        assert(be_value(high) * pow256(16) == 0);
        assert(be_value(bytes@.subrange(at as int, at + 32)) == be_value(low));
    }
    Some(take_be_u128(bytes, at + 16, at + 32))
}

/// Digest of the event's signature, `Deposited(address,string,uint256,uint256)`,
/// which is the first topic of every deposit event.
pub const DEPOSITED_SIGNATURE: [u8; 32] = [
    0xd1, 0x42, 0x43, 0x9c, 0x27, 0x8e, 0x25, 0xda, 0xd9, 0xa5, 0x07, 0x66, 0xf1, 0x53, 0xd0, 0xe3,
    0xd2, 0xd7, 0xbf, 0x2b, 0xd1, 0x6f, 0xc2, 0x78, 0x1c, 0x4b, 0xd4, 0x94, 0xb2, 0xb1, 0x5a, 0x9d,
];

/// What a log entry of a deposit event holds, before the message is read.
pub struct RawDeposit {
    /// The address that emitted the event, 20 bytes.
    pub custodian: Seq<u8>,
    /// The sender of the deposit, 20 bytes.
    pub sender: Seq<u8>,
    /// The text that names the destination.
    pub message: Seq<u8>,
    pub amount: u128,
    pub fee: u128,
}

/// What a log entry of a deposit event holds, before the message is read.
pub struct RawDepositedEvent {
    pub eth_custodian_address: Address,
    pub sender: Address,
    pub message: Vec<u8>,
    pub amount: u128,
    pub fee: u128,
}

impl View for RawDepositedEvent {
    type V = RawDeposit;

    open spec fn view(&self) -> RawDeposit {
        RawDeposit {
            custodian: self.eth_custodian_address@,
            sender: self.sender@,
            message: self.message@,
            amount: self.amount,
            fee: self.fee,
        }
    }
}

/// Number of zero bytes that fill a text of `len` bytes up to whole words.
pub open spec fn padding(len: nat) -> nat {
    ((32 - len % 32) % 32) as nat
}

/// The event's data: the place of the text, the amount and the fee as
/// 32-byte words, then the text behind its length, filled up with zeros.
pub open spec fn event_data(message: Seq<u8>, amount: u128, fee: u128) -> Seq<u8> {
    be_fixed(96, 32) + be_fixed(amount as nat, 32) + be_fixed(fee as nat, 32) + be_fixed(
        message.len(),
        32,
    ) + message + zeros(padding(message.len()))
}

/// The text, the amount and the fee of the event's data that stands from
/// `at` to the end of `bytes`.
pub open spec fn read_event_data(bytes: Seq<u8>, at: int) -> Option<(Seq<u8>, u128, u128)> {
    match (
        read_word(bytes, at),
        read_word(bytes, at + 32),
        read_word(bytes, at + 64),
        read_word(bytes, at + 96),
    ) {
        (Some(place), Some(amount), Some(fee), Some(len)) => if place == 96 && at + 128 + len
            + padding(len as nat) == bytes.len() && bytes.subrange(
            at + 128 + len,
            bytes.len() as int,
        ) == zeros(padding(len as nat)) {
            Some((bytes.subrange(at + 128, at + 128 + len), amount, fee))
        } else {
            None
        },
        _ => None,
    }
}

/// The topics up to the sender: the header of the list of two topics, the
/// header of the first topic and the signature, the header of the second
/// topic and the twelve zero bytes before the sender.
pub open spec fn topics_prefix() -> Seq<u8> {
    seq![0xf8u8, 0x42u8, 0xa0u8] + DEPOSITED_SIGNATURE@ + seq![0xa0u8] + zeros(12)
}

/// What the list of a log entry holds: the custodian, the topics and the
/// event's data, each behind its header.
pub open spec fn entry_payload(raw: RawDeposit) -> Seq<u8> {
    seq![0x94u8] + raw.custodian + topics_prefix() + raw.sender + long_header(
        LONG_STRING,
        event_data(raw.message, raw.amount, raw.fee).len(),
    ) + event_data(raw.message, raw.amount, raw.fee)
}

/// The log entry of a deposit event.
pub open spec fn log_entry_bytes(raw: RawDeposit) -> Seq<u8> {
    long_header(LONG_LIST, entry_payload(raw).len()) + entry_payload(raw)
}

/// Whether the addresses have 20 bytes and the entry's length can be written
/// in a header.
pub open spec fn entry_encodable(raw: RawDeposit) -> bool {
    raw.custodian.len() == 20 && raw.sender.len() == 20 && entry_payload(raw).len() < pow256(8)
}

/// The deposit that the log entry `bytes` holds from their first to their
/// last byte.
pub open spec fn read_log_entry(bytes: Seq<u8>) -> Option<RawDeposit> {
    match read_long_header(bytes, 0, LONG_LIST) {
        Some((len, a)) => if a + len == bytes.len() && a + 89 <= bytes.len() && bytes[a] == 0x94
            && has_at(bytes, a + 21, topics_prefix()) {
            match read_long_header(bytes, a + 89, LONG_STRING) {
                Some((data_len, d)) => if d + data_len == bytes.len() {
                    match read_event_data(bytes, d) {
                        Some((message, amount, fee)) => Some(
                            RawDeposit {
                                custodian: bytes.subrange(a + 1, a + 21),
                                sender: bytes.subrange(a + 69, a + 89),
                                message,
                                amount,
                                fee,
                            },
                        ),
                        None => None,
                    }
                } else {
                    None
                },
                None => None,
            }
        } else {
            None
        },
        None => None,
    }
}

/// The event's data that was read is what stands there, up to the end.
#[verifier::rlimit(50)]
pub proof fn lemma_event_data_sound(bytes: Seq<u8>, at: int)
    ensures
        read_event_data(bytes, at) matches Some((message, amount, fee)) ==> has_at(
            bytes,
            at,
            event_data(message, amount, fee),
        ) && at + event_data(message, amount, fee).len() == bytes.len(),
{
    if read_event_data(bytes, at) is Some {
        let read = read_event_data(bytes, at).unwrap();
        let message = read.0;
        let amount = read.1;
        let fee = read.2;
        lemma_word(bytes, at);
        lemma_word(bytes, at + 32);
        lemma_word(bytes, at + 64);
        lemma_word(bytes, at + 96);
        lemma_be_fixed(96, 32);
        lemma_be_fixed(amount as nat, 32);
        lemma_be_fixed(fee as nat, 32);
        lemma_be_fixed(message.len(), 32);
        let w1 = be_fixed(96, 32);
        let w2 = w1 + be_fixed(amount as nat, 32);
        let w3 = w2 + be_fixed(fee as nat, 32);
        let w4 = w3 + be_fixed(message.len(), 32);
        let w5 = w4 + message;
        let pad = zeros(padding(message.len()));
        lemma_has_at_concat(bytes, at, w1, be_fixed(amount as nat, 32));
        lemma_has_at_concat(bytes, at, w2, be_fixed(fee as nat, 32));
        lemma_has_at_concat(bytes, at, w3, be_fixed(message.len(), 32));
        lemma_has_at_concat(bytes, at, w4, message);
        lemma_has_at_concat(bytes, at, w5, pad);
    }
}

/// The event's data that stands there, up to the end, is what is read.
#[verifier::rlimit(50)]
pub proof fn lemma_event_data_complete(
    bytes: Seq<u8>,
    at: int,
    message: Seq<u8>,
    amount: u128,
    fee: u128,
)
    requires
        message.len() <= u128::MAX,
        has_at(bytes, at, event_data(message, amount, fee)),
        at + event_data(message, amount, fee).len() == bytes.len(),
    ensures
        read_event_data(bytes, at) == Some((message, amount, fee)),
        event_data(message, amount, fee).len() == 128 + message.len() + padding(message.len()),
{
    lemma_be_fixed(96, 32);
    lemma_be_fixed(amount as nat, 32);
    lemma_be_fixed(fee as nat, 32);
    lemma_be_fixed(message.len(), 32);
    let w1 = be_fixed(96, 32);
    let w2 = w1 + be_fixed(amount as nat, 32);
    let w3 = w2 + be_fixed(fee as nat, 32);
    let w4 = w3 + be_fixed(message.len(), 32);
    let w5 = w4 + message;
    let pad = zeros(padding(message.len()));
    lemma_has_at_concat(bytes, at, w5, pad);
    lemma_has_at_concat(bytes, at, w4, message);
    lemma_has_at_concat(bytes, at, w3, be_fixed(message.len(), 32));
    lemma_has_at_concat(bytes, at, w2, be_fixed(fee as nat, 32));
    lemma_has_at_concat(bytes, at, w1, be_fixed(amount as nat, 32));
    lemma_word(bytes, at);
    lemma_word(bytes, at + 32);
    lemma_word(bytes, at + 64);
    lemma_word(bytes, at + 96);
    assert(has_at(bytes, at, be_fixed(96u128 as nat, 32)));
    assert(has_at(bytes, at + 96, be_fixed((message.len() as u128) as nat, 32)));
}

/// The parts of a log entry's list that were read from `a` on are what
/// stands there.
#[verifier::rlimit(50)]
proof fn lemma_payload_sound(bytes: Seq<u8>, a: int, raw: RawDeposit)
    requires
        0 <= a,
        a + 89 <= bytes.len(),
        bytes[a] == 0x94,
        has_at(bytes, a + 21, topics_prefix()),
        raw.custodian == bytes.subrange(a + 1, a + 21),
        raw.sender == bytes.subrange(a + 69, a + 89),
        read_long_header(bytes, a + 89, LONG_STRING) matches Some((data_len, d)) && d + data_len
            == bytes.len() && read_event_data(bytes, d) == Some(
            (raw.message, raw.amount, raw.fee),
        ),
    ensures
        has_at(bytes, a, entry_payload(raw)),
        a + entry_payload(raw).len() == bytes.len(),
{
    lemma_long_header_sound(bytes, a + 89, LONG_STRING);
    let inner = read_long_header(bytes, a + 89, LONG_STRING).unwrap();
    let d = inner.1;
    lemma_event_data_sound(bytes, d);
    let data = event_data(raw.message, raw.amount, raw.fee);
    let header = long_header(LONG_STRING, data.len());
    let q1 = seq![0x94u8];
    let q2 = q1 + raw.custodian;
    let q3 = q2 + topics_prefix();
    let q4 = q3 + raw.sender;
    let q5 = q4 + header;
    assert(topics_prefix().len() == 48);
    assert(has_at(bytes, a, q1)) by {
        assert(bytes.subrange(a, a + 1) =~= q1);
    }
    assert(has_at(bytes, a + 1, raw.custodian));
    lemma_has_at_concat(bytes, a, q1, raw.custodian);
    lemma_has_at_concat(bytes, a, q2, topics_prefix());
    assert(has_at(bytes, a + 69, raw.sender));
    lemma_has_at_concat(bytes, a, q3, raw.sender);
    assert(data.len() == inner.0);
    lemma_has_at_concat(bytes, a, q4, header);
    lemma_has_at_concat(bytes, a, q5, data);
    assert(entry_payload(raw) == q5 + data);
}

/// A deposit that was read from a log entry is written as exactly that
/// entry.
pub proof fn lemma_log_entry_sound(bytes: Seq<u8>)
    ensures
        read_log_entry(bytes) matches Some(raw) ==> entry_encodable(raw) && log_entry_bytes(raw)
            == bytes,
{
    if read_log_entry(bytes) is Some {
        let raw = read_log_entry(bytes).unwrap();
        lemma_long_header_sound(bytes, 0, LONG_LIST);
        let outer = read_long_header(bytes, 0, LONG_LIST).unwrap();
        let a = outer.1;
        lemma_payload_sound(bytes, a, raw);
        assert(entry_payload(raw).len() == outer.0);
        lemma_has_at_concat(bytes, 0, long_header(LONG_LIST, outer.0), entry_payload(raw));
        assert(bytes.subrange(0, bytes.len() as int) =~= bytes);
    }
}

/// The lengths of the parts of a log entry.
pub proof fn lemma_entry_lengths(raw: RawDeposit)
    requires
        entry_encodable(raw),
    ensures
        topics_prefix().len() == 48,
        event_data(raw.message, raw.amount, raw.fee).len() == 128 + raw.message.len() + padding(
            raw.message.len(),
        ),
        55 < event_data(raw.message, raw.amount, raw.fee).len() < pow256(8),
        55 < entry_payload(raw).len() < pow256(8),
        entry_payload(raw).len() == 89 + long_header(
            LONG_STRING,
            event_data(raw.message, raw.amount, raw.fee).len(),
        ).len() + event_data(raw.message, raw.amount, raw.fee).len(),
{
    lemma_be_fixed(96, 32);
    lemma_be_fixed(raw.amount as nat, 32);
    lemma_be_fixed(raw.fee as nat, 32);
    lemma_be_fixed(raw.message.len(), 32);
}

/// The parts of a log entry's list that stands from `a` to the end of
/// `bytes` are read as the deposit it was written from.
#[verifier::rlimit(50)]
proof fn lemma_payload_complete(bytes: Seq<u8>, a: int, raw: RawDeposit)
    requires
        entry_encodable(raw),
        has_at(bytes, a, entry_payload(raw)),
        a + entry_payload(raw).len() == bytes.len(),
    ensures
        a + 89 <= bytes.len(),
        bytes[a] == 0x94,
        has_at(bytes, a + 21, topics_prefix()),
        bytes.subrange(a + 1, a + 21) == raw.custodian,
        bytes.subrange(a + 69, a + 89) == raw.sender,
        read_long_header(bytes, a + 89, LONG_STRING) matches Some((data_len, d)) && d + data_len
            == bytes.len() && read_event_data(bytes, d) == Some(
            (raw.message, raw.amount, raw.fee),
        ),
{
    let data = event_data(raw.message, raw.amount, raw.fee);
    let header = long_header(LONG_STRING, data.len());
    lemma_entry_lengths(raw);
    let q1 = seq![0x94u8];
    let q2 = q1 + raw.custodian;
    let q3 = q2 + topics_prefix();
    let q4 = q3 + raw.sender;
    let q5 = q4 + header;
    assert(entry_payload(raw) == q5 + data);
    assert(q4.len() == 89);
    lemma_has_at_concat(bytes, a, q5, data);
    lemma_has_at_concat(bytes, a, q4, header);
    lemma_has_at_concat(bytes, a, q3, raw.sender);
    lemma_has_at_concat(bytes, a, q2, topics_prefix());
    lemma_has_at_concat(bytes, a, q1, raw.custodian);
    assert(bytes[a] == bytes.subrange(a, a + 1)[0]);
    assert(has_at(bytes, a + 89, header));
    lemma_long_header_complete(bytes, a + 89, LONG_STRING, data.len());
    let d = a + 89 + header.len();
    assert(has_at(bytes, d, data));
    lemma_pow256();
    assert(raw.message.len() <= u128::MAX);
    lemma_event_data_complete(bytes, d, raw.message, raw.amount, raw.fee);
}

/// A deposit is read back from the log entry it is written as.
pub proof fn lemma_log_entry_complete(raw: RawDeposit)
    requires
        entry_encodable(raw),
    ensures
        read_log_entry(log_entry_bytes(raw)) == Some(raw),
{
    let bytes = log_entry_bytes(raw);
    let payload = entry_payload(raw);
    let head = long_header(LONG_LIST, payload.len());
    lemma_entry_lengths(raw);
    assert(bytes.subrange(0, bytes.len() as int) =~= bytes);
    lemma_has_at_concat(bytes, 0, head, payload);
    lemma_long_header_complete(bytes, 0, LONG_LIST, payload.len());
    lemma_payload_complete(bytes, head.len() as int, raw);
}

/// Whether `piece` stands in `bytes` at `at`.
pub fn stands_at(bytes: &[u8], at: usize, piece: &[u8]) -> (found: bool)
    ensures
        found == has_at(bytes@, at as int, piece@),
{
    if piece.len() > bytes.len() || at > bytes.len() - piece.len() {
        return false;
    }
    let mut i: usize = 0;
    while i < piece.len()
        invariant
            i <= piece@.len(),
            at + piece@.len() <= bytes@.len() <= usize::MAX,
            forall|j: int| 0 <= j < i ==> bytes@[at + j] == piece@[j],
        decreases piece@.len() - i,
    {
        if bytes[at + i] != piece[i] {
            assert(bytes@.subrange(at as int, at + piece@.len())[i as int] != piece@[i as int]);
            return false;
        }
        i += 1;
    }
    assert(bytes@.subrange(at as int, at + piece@.len()) =~= piece@);
    true
}

/// Whether `bytes` are zero from `at` to their end.
pub fn zero_from(bytes: &[u8], at: usize) -> (zero: bool)
    requires
        at <= bytes@.len(),
    ensures
        zero == (bytes@.subrange(at as int, bytes@.len() as int) == zeros(
            (bytes@.len() - at) as nat,
        )),
{
    let mut i: usize = at;
    while i < bytes.len()
        invariant
            at <= i <= bytes@.len(),
            forall|j: int| at <= j < i ==> bytes@[j] == 0,
        decreases bytes@.len() - i,
    {
        if bytes[i] != 0 {
            assert(bytes@.subrange(at as int, bytes@.len() as int)[i - at] != zeros(
                (bytes@.len() - at) as nat,
            )[i - at]);
            return false;
        }
        i += 1;
    }
    assert(bytes@.subrange(at as int, bytes@.len() as int) =~= zeros((bytes@.len() - at) as nat));
    true
}

/// The 20 bytes at `at` as an address.
pub fn take_address(bytes: &[u8], at: usize) -> (address: Address)
    requires
        at + 20 <= bytes@.len(),
    ensures
        address@ == bytes@.subrange(at as int, at + 20),
{
    let mut address: Address = [0u8; 20];
    let total = bytes.len();
    let mut i: usize = 0;
    while i < 20
        invariant
            i <= 20,
            at + 20 <= bytes@.len() == total,
            address@.len() == 20,
            forall|j: int| 0 <= j < i ==> address@[j] == bytes@[at + j],
        decreases 20 - i,
    {
        address[i] = bytes[at + i];
        i += 1;
    }
    assert(address@ =~= bytes@.subrange(at as int, at + 20));
    address
}

/// The topics up to the sender.
pub fn topics_prefix_bytes() -> (prefix: Vec<u8>)
    ensures
        prefix@ == topics_prefix(),
{
    let mut prefix: Vec<u8> = Vec::new();
    prefix.push(0xf8u8);
    prefix.push(0x42u8);
    prefix.push(0xa0u8);
    let signature = DEPOSITED_SIGNATURE;
    extend(&mut prefix, signature.as_slice());
    prefix.push(0xa0u8);
    let ghost head = prefix@;
    let mut i: usize = 0;
    while i < 12
        invariant
            i <= 12,
            prefix@ == head + zeros(i as nat),
        decreases 12 - i,
    {
        prefix.push(0u8);
        assert(prefix@ =~= head + zeros((i + 1) as nat));
        i += 1;
    }
    assert(prefix@ =~= topics_prefix());
    prefix
}

/// Read the event's data that stands from `at` to the end of `bytes`.
pub fn take_event_data(bytes: &[u8], at: usize) -> (res: Option<(Vec<u8>, u128, u128)>)
    ensures
        match res {
            Some((message, amount, fee)) => read_event_data(bytes@, at as int) == Some(
                (message@, amount, fee),
            ),
            None => read_event_data(bytes@, at as int) is None,
        },
{
    if bytes.len() < 128 || at > bytes.len() - 128 {
        return None;
    }
    let place = match take_word(bytes, at) {
        Some(v) => v,
        None => {
            return None;
        },
    };
    let amount = match take_word(bytes, at + 32) {
        Some(v) => v,
        None => {
            return None;
        },
    };
    let fee = match take_word(bytes, at + 64) {
        Some(v) => v,
        None => {
            return None;
        },
    };
    let len = match take_word(bytes, at + 96) {
        Some(v) => v,
        None => {
            return None;
        },
    };
    if place != 96 {
        return None;
    }
    let rest = bytes.len() - at - 128;
    if len > rest as u128 {
        return None;
    }
    let len = len as usize;
    let pad = (32 - len % 32) % 32;
    if rest - len != pad {
        return None;
    }
    if !zero_from(bytes, at + 128 + len) {
        return None;
    }
    let message = slice_to_vec(slice_subrange(bytes, at + 128, at + 128 + len));
    Some((message, amount, fee))
}

/// Read the log entry of a deposit event.
pub fn take_log_entry(bytes: &[u8]) -> (res: Option<RawDepositedEvent>)
    ensures
        match res {
            Some(raw) => read_log_entry(bytes@) == Some(raw@),
            None => read_log_entry(bytes@) is None,
        },
{
    let (len, a) = match take_long_header(bytes, 0, LONG_LIST) {
        Some(read) => read,
        None => {
            return None;
        },
    };
    proof {
        lemma_long_header_sound(bytes@, 0, LONG_LIST);
    }
    if len != (bytes.len() - a) as u64 {
        return None;
    }
    if bytes.len() - a < 89 {
        return None;
    }
    if bytes[a] != 0x94 {
        return None;
    }
    let prefix = topics_prefix_bytes();
    if !stands_at(bytes, a + 21, prefix.as_slice()) {
        return None;
    }
    let (data_len, d) = match take_long_header(bytes, a + 89, LONG_STRING) {
        Some(read) => read,
        None => {
            return None;
        },
    };
    proof {
        lemma_long_header_sound(bytes@, a + 89, LONG_STRING);
    }
    if data_len != (bytes.len() - d) as u64 {
        return None;
    }
    let (message, amount, fee) = match take_event_data(bytes, d) {
        Some(read) => read,
        None => {
            return None;
        },
    };
    Some(
        RawDepositedEvent {
            eth_custodian_address: take_address(bytes, a + 1),
            sender: take_address(bytes, a + 69),
            message,
            amount,
            fee,
        },
    )
}

} // verus!
