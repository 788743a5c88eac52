//! The deposit event that a verified log entry carries.

use crate::eth_log::{
    lemma_log_entry_complete, lemma_log_entry_sound, log_entry_bytes, entry_encodable,
    read_log_entry, take_log_entry, RawDeposit,
};
use crate::fungible_token::core_impl::AccountId;
use crate::text::{hex, lemma_hex_is_ascii, lemma_hex_len, push_hex};
use vstd::bytes::{spec_u128_to_le_bytes, u128_to_le_bytes};
use vstd::prelude::*;
use vstd::slice::slice_subrange;
use vstd::string::StringExecFns;

verus! {

/// An address on the other chain.
pub type Address = [u8; 20];

/// Whether two addresses are the same.
pub fn same_address(a: &Address, b: &Address) -> (same: bool)
    ensures
        same == (a@ == b@),
{
    let mut i: usize = 0;
    while i < 20
        invariant
            i <= 20,
            forall|j: int| 0 <= j < i ==> a@[j] == b@[j],
        decreases 20 - i,
    {
        if a[i] != b[i] {
            return false;
        }
        i += 1;
    }
    assert(a@ =~= b@);
    true
}

/// What the second transfer step needs to forward a deposit to an address on
/// the other chain.
pub struct FtTransferMessageData {
    pub relayer: AccountId,
    pub recipient: Address,
    pub fee: u128,
}

/// A forwarding message as the contracts see it.
pub struct FtTransferMessageView {
    pub relayer: Seq<char>,
    pub recipient: Seq<u8>,
    pub fee: u128,
}

impl View for FtTransferMessageData {
    type V = FtTransferMessageView;

    open spec fn view(&self) -> FtTransferMessageView {
        FtTransferMessageView { relayer: self.relayer@, recipient: self.recipient@, fee: self.fee }
    }
}

/// The fee as 32 bytes with the low byte first, then the recipient.
pub open spec fn message_payload(message: FtTransferMessageView) -> Seq<u8> {
    spec_u128_to_le_bytes(message.fee) + Seq::new(16, |i: int| 0u8) + message.recipient
}

/// The text of a forwarding message: the relayer, a colon, and the payload
/// in hexadecimal.
pub open spec fn message_text(message: FtTransferMessageView) -> Seq<char> {
    message.relayer + seq![':'] + hex(message_payload(message))
}

impl FtTransferMessageData {
    /// The message as the text that the second transfer step parses.
    pub fn encode(&self) -> (text: String)
        ensures
            text@ == message_text(self@),
    {
        let mut data = u128_to_le_bytes(self.fee);
        let mut i: usize = 0;
        while i < 16
            invariant
                i <= 16,
                data@ == spec_u128_to_le_bytes(self.fee) + Seq::new(i as nat, |i: int| 0u8),
            decreases 16 - i,
        {
            data.push(0u8);
            assert(data@ =~= spec_u128_to_le_bytes(self.fee) + Seq::new(
                (i + 1) as nat,
                |i: int| 0u8,
            ));
            i += 1;
        }
        let mut j: usize = 0;
        let ghost head = data@;
        while j < 20
            invariant
                j <= 20,
                self.recipient@.len() == 20,
                data@ == head + self.recipient@.take(j as int),
            decreases 20 - j,
        {
            data.push(self.recipient[j]);
            assert(data@ =~= head + self.recipient@.take(j + 1));
            j += 1;
        }
        assert(self.recipient@.take(20) =~= self.recipient@);
        let mut text = self.relayer.clone();
        proof {
            reveal_strlit(":");
        }
        text.append(":");
        assert(text@ =~= self.relayer@ + seq![':']);
        push_hex(&mut text, data.as_slice());
        text
    }
}

/// Where a deposit goes.
pub enum TokenMessageData {
    /// To this account.
    Near(AccountId),
    /// To the contract's own account first, then on to an address of the
    /// other chain in a second transfer step.
    Eth { receiver_id: AccountId, message: FtTransferMessageData },
}

/// A destination as the contracts see it.
pub enum TokenMessageView {
    Near(Seq<char>),
    Eth { receiver_id: Seq<char>, message: FtTransferMessageView },
}

impl View for TokenMessageData {
    type V = TokenMessageView;

    open spec fn view(&self) -> TokenMessageView {
        match self {
            TokenMessageData::Near(account_id) => TokenMessageView::Near(account_id@),
            TokenMessageData::Eth { receiver_id, message } => TokenMessageView::Eth {
                receiver_id: receiver_id@,
                message: message@,
            },
        }
    }
}

/// A deposit on the other chain.
pub struct DepositedEvent {
    /// The custodian that the event names.
    pub eth_custodian_address: Address,
    pub sender: Address,
    pub token_message_data: TokenMessageData,
    pub amount: u128,
    pub fee: u128,
}

/// A deposit event as the contracts see it.
pub struct DepositedEventView {
    pub eth_custodian_address: Seq<u8>,
    pub sender: Seq<u8>,
    pub token_message_data: TokenMessageView,
    pub amount: u128,
    pub fee: u128,
}

impl View for DepositedEvent {
    type V = DepositedEventView;

    open spec fn view(&self) -> DepositedEventView {
        DepositedEventView {
            eth_custodian_address: self.eth_custodian_address@,
            sender: self.sender@,
            token_message_data: self.token_message_data@,
            amount: self.amount,
            fee: self.fee,
        }
    }
}

/// Whether a byte is one of the separators of an account identifier:
/// `-`, `_` or `.`.
pub open spec fn is_separator(b: u8) -> bool {
    b == 45 || b == 95 || b == 46
}

/// Whether a byte may stand in an account identifier: a lower-case letter, a
/// digit or a separator.
pub open spec fn is_account_char(b: u8) -> bool {
    (97 <= b <= 122) || (48 <= b <= 57) || is_separator(b)
}

/// Whether the text is an account identifier: 2 to 64 characters, each a
/// lower-case letter, a digit or a separator, no separator at either end and
/// no two separators in a row.
pub open spec fn valid_account_id(id: Seq<u8>) -> bool {
    &&& 2 <= id.len() <= 64
    &&& forall|i: int| 0 <= i < id.len() ==> is_account_char(#[trigger] id[i])
    &&& !is_separator(id[0])
    &&& !is_separator(id[id.len() - 1])
    &&& forall|i: int|
        0 <= i < id.len() - 1 ==> !(is_separator(#[trigger] id[i]) && is_separator(id[i + 1]))
}

/// The value of a hexadecimal digit, in either case.
pub open spec fn hex_value(b: u8) -> Option<u8> {
    if 48 <= b <= 57 {
        Some((b - 48) as u8)
    } else if 97 <= b <= 102 {
        Some((b - 87) as u8)
    } else if 65 <= b <= 70 {
        Some((b - 55) as u8)
    } else {
        None
    }
}

/// The address that 40 hexadecimal digits stand for.
pub open spec fn decode_address(digits: Seq<u8>) -> Option<Seq<u8>> {
    if digits.len() == 40 && forall|i: int| 0 <= i < 40 ==> hex_value(#[trigger] digits[i]) is Some {
        Some(
            Seq::new(
                20,
                |i: int| (hex_value(digits[2 * i])->0 * 16 + hex_value(digits[2 * i + 1])->0) as u8,
            ),
        )
    } else {
        None
    }
}

/// The address that a text names: 40 hexadecimal digits, or `0x` and 40
/// hexadecimal digits.
pub open spec fn parse_address(text: Seq<u8>) -> Option<Seq<u8>> {
    if text.len() == 42 {
        if text[0] == 48 && text[1] == 120 {
            decode_address(text.subrange(2, 42))
        } else {
            None
        }
    } else {
        decode_address(text)
    }
}

/// Bytes below 128 as the characters they stand for.
pub open spec fn ascii_text(bytes: Seq<u8>) -> Seq<char> {
    Seq::new(bytes.len(), |i: int| bytes[i] as char)
}

/// Position of the first colon of the text.
pub open spec fn first_colon(text: Seq<u8>) -> int {
    choose|k: int| 0 <= k < text.len() && text[k] == 58 && forall|j: int| 0 <= j < k ==> text[j] != 58
}

/// Where the message of a deposit event sends the deposit. A message without
/// a colon names an account. A message with one colon names an account and,
/// behind the colon, an address of the other chain to forward to, with the
/// account as the relayer. Anything else names nothing.
pub open spec fn parse_message(text: Seq<u8>, fee: u128) -> Option<TokenMessageView> {
    if !text.contains(58) {
        if valid_account_id(text) {
            Some(TokenMessageView::Near(ascii_text(text)))
        } else {
            None
        }
    } else {
        let k = first_colon(text);
        let account = text.take(k);
        let rest = text.skip(k + 1);
        if rest.contains(58) || !valid_account_id(account) {
            None
        } else {
            match parse_address(rest) {
                Some(recipient) => Some(
                    TokenMessageView::Eth {
                        receiver_id: ascii_text(account),
                        message: FtTransferMessageView {
                            relayer: ascii_text(account),
                            recipient,
                            fee,
                        },
                    },
                ),
                None => None,
            }
        }
    }
}

/// The deposit event that a log entry holds.
pub open spec fn decode_event(bytes: Seq<u8>) -> Option<DepositedEventView> {
    match read_log_entry(bytes) {
        Some(raw) => match parse_message(raw.message, raw.fee) {
            Some(token_message_data) => Some(
                DepositedEventView {
                    eth_custodian_address: raw.custodian,
                    sender: raw.sender,
                    token_message_data,
                    amount: raw.amount,
                    fee: raw.fee,
                },
            ),
            None => None,
        },
        None => None,
    }
}

/// A log entry is read as a deposit event exactly where it is the entry of a
/// deposit whose message names a destination.
pub proof fn lemma_decode_event(bytes: Seq<u8>)
    ensures
        decode_event(bytes) matches Some(event) ==> exists|raw: RawDeposit|
            {
                &&& entry_encodable(raw)
                &&& #[trigger] log_entry_bytes(raw) == bytes
                &&& parse_message(raw.message, raw.fee) == Some(event.token_message_data)
                &&& raw.custodian == event.eth_custodian_address
                &&& raw.sender == event.sender
                &&& raw.amount == event.amount
                &&& raw.fee == event.fee
            },
        decode_event(bytes) is None ==> forall|raw: RawDeposit|
            entry_encodable(raw) && #[trigger] log_entry_bytes(raw) == bytes ==> parse_message(
                raw.message,
                raw.fee,
            ) is None,
{
    lemma_log_entry_sound(bytes);
    if decode_event(bytes) is Some {
        let raw = read_log_entry(bytes).unwrap();
        assert(log_entry_bytes(raw) == bytes);
    }
    assert forall|raw: RawDeposit|
        entry_encodable(raw) && #[trigger] log_entry_bytes(raw) == bytes implies read_log_entry(
        bytes,
    ) == Some(raw) by {
        lemma_log_entry_complete(raw);
    }
}

/// Calls `String::from_utf8_lossy` of std on bytes that are all below 128.
/// Such bytes are valid UTF-8, one character each, so the contract claims
/// that the text holds exactly the characters that the bytes stand for.
#[verifier::external_body]
fn ascii_string(bytes: &[u8]) -> (text: String)
    requires
        forall|i: int| 0 <= i < bytes@.len() ==> bytes@[i] < 128,
    ensures
        text@ == ascii_text(bytes@),
{
    String::from_utf8_lossy(bytes).into_owned()
}

/// Whether the text is an account identifier.
pub fn is_valid_account_id(id: &[u8]) -> (valid: bool)
    ensures
        valid == valid_account_id(id@),
{
    if id.len() < 2 || id.len() > 64 {
        return false;
    }
    let mut last_is_separator = true;
    let mut i: usize = 0;
    while i < id.len()
        invariant
            i <= id@.len(),
            2 <= id@.len(),
            forall|j: int| 0 <= j < i ==> is_account_char(#[trigger] id@[j]),
            i > 0 ==> !is_separator(id@[0]),
            last_is_separator == (i == 0 || is_separator(id@[i - 1])),
            forall|j: int|
                0 <= j < i - 1 ==> !(is_separator(#[trigger] id@[j]) && is_separator(id@[j + 1])),
        decreases id@.len() - i,
    {
        let b = id[i];
        let separator = b == 45 || b == 95 || b == 46;
        let plain = (97 <= b && b <= 122) || (48 <= b && b <= 57);
        if !separator && !plain {
            assert(!is_account_char(id@[i as int]));
            return false;
        }
        if separator && last_is_separator {
            if i > 0 {
                assert(is_separator(id@[i - 1]) && is_separator(id@[i - 1 + 1]));
            }
            return false;
        }
        last_is_separator = separator;
        i += 1;
    }
    !last_is_separator
}

/// The value of a hexadecimal digit.
pub fn hex_digit(b: u8) -> (value: Option<u8>)
    ensures
        value == hex_value(b),
{
    if 48 <= b && b <= 57 {
        Some(b - 48)
    } else if 97 <= b && b <= 102 {
        Some(b - 87)
    } else if 65 <= b && b <= 70 {
        Some(b - 55)
    } else {
        None
    }
}

/// The address that a text names.
pub fn address_from_text(text: &[u8]) -> (address: Option<Address>)
    ensures
        match address {
            Some(address) => parse_address(text@) == Some(address@),
            None => parse_address(text@) is None,
        },
{
    let digits = if text.len() == 42 {
        if text[0] != 48 || text[1] != 120 {
            return None;
        }
        slice_subrange(text, 2, 42)
    } else {
        text
    };
    if digits.len() != 40 {
        return None;
    }
    assert(parse_address(text@) == decode_address(digits@));
    let mut address: Address = [0u8; 20];
    let mut i: usize = 0;
    while i < 20
        invariant
            i <= 20,
            digits@.len() == 40,
            address@.len() == 20,
            parse_address(text@) == decode_address(digits@),
            forall|j: int| 0 <= j < 2 * i ==> hex_value(#[trigger] digits@[j]) is Some,
            forall|j: int|
                0 <= j < i ==> #[trigger] address@[j] == (hex_value(digits@[2 * j])->0 * 16
                    + hex_value(digits@[2 * j + 1])->0) as u8,
        decreases 20 - i,
    {
        let high = match hex_digit(digits[2 * i]) {
            Some(v) => v,
            None => {
                assert(hex_value(digits@[2 * i]) is None);
                return None;
            },
        };
        let low = match hex_digit(digits[2 * i + 1]) {
            Some(v) => v,
            None => {
                assert(hex_value(digits@[2 * i + 1]) is None);
                return None;
            },
        };
        address[i] = high * 16 + low;
        i += 1;
    }
    assert(address@ =~= decode_address(digits@)->0);
    Some(address)
}

/// Whether the text holds a colon from `from` on, and where the first one
/// stands.
fn find_colon(text: &[u8], from: usize) -> (found: Option<usize>)
    requires
        from <= text@.len(),
    ensures
        match found {
            Some(k) => from <= k < text@.len() && text@[k as int] == 58 && forall|j: int|
                from <= j < k ==> text@[j] != 58,
            None => forall|j: int| from <= j < text@.len() ==> text@[j] != 58,
        },
{
    let mut i: usize = from;
    while i < text.len()
        invariant
            from <= i <= text@.len(),
            forall|j: int| from <= j < i ==> text@[j] != 58,
        decreases text@.len() - i,
    {
        if text[i] == 58 {
            return Some(i);
        }
        i += 1;
    }
    None
}

/// An account identifier is made of bytes below 128.
pub proof fn lemma_account_id_is_ascii(id: Seq<u8>)
    requires
        valid_account_id(id),
    ensures
        forall|i: int| 0 <= i < id.len() ==> id[i] < 128,
{
    assert forall|i: int| 0 <= i < id.len() implies id[i] < 128 by {
        assert(is_account_char(id[i]));
    }
}

/// The account that a message names is written in 2 to 64 characters below
/// 128, and the address it names has 20 bytes.
pub proof fn lemma_parsed_message(text: Seq<u8>, fee: u128)
    ensures
        parse_message(text, fee) matches Some(TokenMessageView::Near(account_id))
            ==> vstd::utf8::is_ascii_chars(account_id) && 2 <= account_id.len() <= 64,
        parse_message(text, fee) matches Some(TokenMessageView::Eth { receiver_id, message }) ==> {
            &&& vstd::utf8::is_ascii_chars(receiver_id)
            &&& 2 <= receiver_id.len() <= 64
            &&& message.relayer == receiver_id
            &&& message.recipient.len() == 20
            &&& message.fee == fee
        },
{
    if parse_message(text, fee) is Some {
        let account = if text.contains(58) {
            text.take(first_colon(text))
        } else {
            text
        };
        lemma_account_id_is_ascii(account);
        assert forall|i: int| 0 <= i < ascii_text(account).len() implies '\0' <= #[trigger] ascii_text(
            account,
        )[i] <= '\u{7f}' by {
            assert(account[i] < 128);
        }
    }
}

/// The text of a forwarding message whose relayer is written in characters
/// below 128 is written in such characters too, 105 more than the relayer.
pub proof fn lemma_message_text(message: FtTransferMessageView)
    requires
        vstd::utf8::is_ascii_chars(message.relayer),
        message.recipient.len() == 20,
    ensures
        vstd::utf8::is_ascii_chars(message_text(message)),
        message_text(message).len() == message.relayer.len() + 105,
{
    vstd::bytes::lemma_auto_spec_u128_to_from_le_bytes();
    let payload = message_payload(message);
    assert(payload.len() == 52);
    lemma_hex_len(payload);
    lemma_hex_is_ascii(payload);
    let text = message_text(message);
    assert forall|i: int| 0 <= i < text.len() implies '\0' <= #[trigger] text[i] <= '\u{7f}' by {
        if i < message.relayer.len() {
            assert(text[i] == message.relayer[i]);
        } else if i > message.relayer.len() {
            assert(text[i] == hex(payload)[i - message.relayer.len() - 1]);
        }
    }
}

/// The deposit event is not what a log entry holds.
#[derive(Debug, Clone, Copy, PartialEq, Eq, Structural)]
pub struct MalformedEvent;

impl TokenMessageData {
    /// Read where the message of a deposit event sends the deposit.
    pub fn parse_event_message_and_prepare_token_message_data(message: &[u8], fee: u128) -> (res:
        Option<TokenMessageData>)
        ensures
            match res {
                Some(data) => parse_message(message@, fee) == Some(data@),
                None => parse_message(message@, fee) is None,
            },
    {
        let total = message.len();
        match find_colon(message, 0) {
            None => {
                assert(!message@.contains(58));
                if !is_valid_account_id(message) {
                    return None;
                }
                proof {
                    lemma_account_id_is_ascii(message@);
                }
                Some(TokenMessageData::Near(ascii_string(message)))
            },
            Some(k) => {
                assert(message@.contains(58));
                assert(first_colon(message@) == k);
                let account = slice_subrange(message, 0, k);
                let rest = slice_subrange(message, k + 1, total);
                assert(account@ =~= message@.take(k as int));
                assert(rest@ =~= message@.skip(k + 1));
                match find_colon(message, k + 1) {
                    Some(other) => {
                        assert(rest@[other - k - 1] == 58);
                        return None;
                    },
                    None => {
                        assert(!rest@.contains(58)) by {
                            if rest@.contains(58) {
                                let j = choose|j: int| 0 <= j < rest@.len() && rest@[j] == 58;
                                assert(message@[k + 1 + j] == 58);
                            }
                        }
                    },
                }
                if !is_valid_account_id(account) {
                    return None;
                }
                let recipient = match address_from_text(rest) {
                    Some(address) => address,
                    None => {
                        return None;
                    },
                };
                proof {
                    lemma_account_id_is_ascii(account@);
                }
                Some(
                    TokenMessageData::Eth {
                        receiver_id: ascii_string(account),
                        message: FtTransferMessageData {
                            relayer: ascii_string(account),
                            recipient,
                            fee,
                        },
                    },
                )
            },
        }
    }
}

impl DepositedEvent {
    /// Read the deposit event out of the bytes of a log entry. The entry has
    /// to be the list of the custodian's address, the two topics of a deposit
    /// event and the event's data, from the first byte to the last, and its
    /// message has to name a destination.
    pub fn from_log_entry_data(data: &[u8]) -> (res: Result<DepositedEvent, MalformedEvent>)
        ensures
            match res {
                Ok(event) => decode_event(data@) == Some(event@),
                Err(_) => decode_event(data@) is None,
            },
    {
        let raw = match take_log_entry(data) {
            Some(raw) => raw,
            None => {
                return Err(MalformedEvent);
            },
        };
        let token_message_data =
            match TokenMessageData::parse_event_message_and_prepare_token_message_data(
            raw.message.as_slice(),
            raw.fee,
        ) {
            Some(data) => data,
            None => {
                return Err(MalformedEvent);
            },
        };
        Ok(
            DepositedEvent {
                eth_custodian_address: raw.eth_custodian_address,
                sender: raw.sender,
                token_message_data,
                amount: raw.amount,
                fee: raw.fee,
            },
        )
    }
}

} // verus!
