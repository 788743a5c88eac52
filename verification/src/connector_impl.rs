//! The connector's own data and the decision whether a deposit event may
//! mint a balance.

use crate::admin_controlled::{paused_for, AdminControlled, PausedMask, PAUSE_DEPOSIT};
use crate::deposit_event::{
    decode_event, lemma_message_text, lemma_parsed_message, message_text, same_address, Address,
    DepositedEvent, DepositedEventView, TokenMessageData, TokenMessageView,
};
use crate::eth_log::read_log_entry;
use crate::proof_data::{proof_key, read_proof, Proof};
use crate::fungible_token::core_impl::AccountId;
use crate::wire::{extend, frameable, framed, put_framed};
use vstd::bytes::{spec_u128_to_le_bytes, u128_to_le_bytes};
use vstd::prelude::*;
use vstd::utf8::encode_utf8;

verus! {

/// Arguments of the second transfer step.
pub struct TransferCallCallArgs {
    pub receiver_id: AccountId,
    pub amount: u128,
    pub memo: Option<String>,
    pub msg: String,
}

/// Arguments of the second transfer step as the contracts see them.
pub struct TransferCallView {
    pub receiver_id: Seq<char>,
    pub amount: u128,
    pub memo: Option<Seq<char>>,
    pub msg: Seq<char>,
}

impl View for TransferCallCallArgs {
    type V = TransferCallView;

    open spec fn view(&self) -> TransferCallView {
        TransferCallView {
            receiver_id: self.receiver_id@,
            amount: self.amount,
            memo: match self.memo {
                Some(memo) => Some(memo@),
                None => None,
            },
            msg: self.msg@,
        }
    }
}

/// Whether every text of the arguments is short enough for its frame.
pub open spec fn transfer_call_frameable(args: TransferCallView) -> bool {
    &&& frameable(encode_utf8(args.receiver_id))
    &&& args.memo matches Some(memo) ==> frameable(encode_utf8(memo))
    &&& frameable(encode_utf8(args.msg))
}

/// A text that may be absent: one byte that says whether it is there, then
/// the text in its frame.
pub open spec fn optional_text_bytes(text: Option<Seq<char>>) -> Seq<u8> {
    match text {
        Some(text) => seq![1u8] + framed(encode_utf8(text)),
        None => seq![0u8],
    }
}

/// The arguments in the binary layout: receiver, amount, memo, message.
pub open spec fn transfer_call_bytes(args: TransferCallView) -> Seq<u8> {
    framed(encode_utf8(args.receiver_id)) + spec_u128_to_le_bytes(args.amount)
        + optional_text_bytes(args.memo) + framed(encode_utf8(args.msg))
}

impl TransferCallCallArgs {
    /// The arguments in the binary layout, `None` where a text is too long
    /// for its frame.
    pub fn try_to_vec(&self) -> (bytes: Option<Vec<u8>>)
        ensures
            match bytes {
                Some(bytes) => transfer_call_frameable(self@) && bytes@ == transfer_call_bytes(
                    self@,
                ),
                None => !transfer_call_frameable(self@),
            },
    {
        let receiver = self.receiver_id.as_str().as_bytes();
        let msg = self.msg.as_str().as_bytes();
        if receiver.len() > u32::MAX as usize || msg.len() > u32::MAX as usize {
            return None;
        }
        let mut out: Vec<u8> = Vec::new();
        put_framed(&mut out, receiver);
        let amount = u128_to_le_bytes(self.amount);
        extend(&mut out, amount.as_slice());
        match &self.memo {
            Some(memo) => {
                let memo = memo.as_str().as_bytes();
                if memo.len() > u32::MAX as usize {
                    return None;
                }
                out.push(1u8);
                put_framed(&mut out, memo);
            },
            None => {
                out.push(0u8);
            },
        }
        put_framed(&mut out, msg);
        assert(out@ =~= transfer_call_bytes(self@));
        Some(out)
    }
}

/// The instruction that credits a deposit.
pub struct FinishDepositCallArgs {
    pub new_owner_id: AccountId,
    pub amount: u128,
    pub proof_key: String,
    pub relayer_id: AccountId,
    pub fee: u128,
    pub msg: Option<Vec<u8>>,
}

/// A credit instruction as the contracts see it.
pub struct FinishDepositView {
    pub new_owner_id: Seq<char>,
    pub amount: u128,
    pub proof_key: Seq<char>,
    pub relayer_id: Seq<char>,
    pub fee: u128,
    pub msg: Option<Seq<u8>>,
}

impl View for FinishDepositCallArgs {
    type V = FinishDepositView;

    open spec fn view(&self) -> FinishDepositView {
        FinishDepositView {
            new_owner_id: self.new_owner_id@,
            amount: self.amount,
            proof_key: self.proof_key@,
            relayer_id: self.relayer_id@,
            fee: self.fee,
            msg: match self.msg {
                Some(msg) => Some(msg@),
                None => None,
            },
        }
    }
}

/// Why a deposit was refused.
#[derive(Debug, Clone, Copy, PartialEq, Eq, Structural)]
pub enum DepositError {
    /// Deposits are paused for this caller.
    Paused,
    /// The bytes do not hold a proof record.
    MalformedProof,
    /// The log entry does not hold a deposit event.
    MalformedEvent,
    /// The event names another custodian than this deployment's.
    CustodianAddressMismatch,
    /// The fee is not less than the amount.
    InsufficientAmountForFee,
    /// A text of the forwarding payload is too long for its frame.
    PayloadTooLong,
}

/// Connector specific data.
pub struct EthConnector {
    /// The account that verifies the log entry of an incoming proof.
    pub prover_account: AccountId,
    /// The custodian on the other chain that genuine deposit events name.
    pub eth_custodian_address: Address,
    /// The paused capabilities.
    pub paused_mask: PausedMask,
}

impl AdminControlled for EthConnector {
    open spec fn paused_flags(&self) -> PausedMask {
        self.paused_mask
    }

    fn get_paused_flags(&self) -> (mask: PausedMask) {
        self.paused_mask
    }

    fn set_paused_flags(&mut self, paused: PausedMask)
        ensures
            final(self).prover_account == old(self).prover_account,
            final(self).eth_custodian_address == old(self).eth_custodian_address,
    {
        self.paused_mask = paused;
    }
}

/// The arguments of the second transfer step for an event that is relayed
/// and forwarded.
pub open spec fn forwarding_args(event: DepositedEventView) -> TransferCallView
    recommends
        event.token_message_data is Eth,
{
    TransferCallView {
        receiver_id: event.token_message_data->receiver_id,
        amount: event.amount,
        memo: None,
        msg: message_text(event.token_message_data->message),
    }
}

/// The credit instruction for an event: to the named account, or to the
/// contract's own account with the forwarding payload.
pub open spec fn finish_deposit_args(
    current_account_id: Seq<char>,
    predecessor_account_id: Seq<char>,
    event: DepositedEventView,
    proof_key: Seq<char>,
) -> FinishDepositView {
    match event.token_message_data {
        TokenMessageView::Near(account_id) => FinishDepositView {
            new_owner_id: account_id,
            amount: event.amount,
            proof_key,
            relayer_id: predecessor_account_id,
            fee: event.fee,
            msg: None,
        },
        TokenMessageView::Eth { receiver_id, message } => FinishDepositView {
            new_owner_id: current_account_id,
            amount: event.amount,
            proof_key,
            relayer_id: predecessor_account_id,
            fee: event.fee,
            msg: Some(transfer_call_bytes(forwarding_args(event))),
        },
    }
}

/// What a deposit event leads to: a refusal, in this order of the reasons,
/// or the credit instruction.
pub open spec fn deposit_outcome(
    paused_mask: PausedMask,
    eth_custodian_address: Seq<u8>,
    current_account_id: Seq<char>,
    predecessor_account_id: Seq<char>,
    event: DepositedEventView,
    proof_key: Seq<char>,
) -> Result<FinishDepositView, DepositError> {
    if paused_for(paused_mask, PAUSE_DEPOSIT, current_account_id == predecessor_account_id) {
        Err(DepositError::Paused)
    } else if event.eth_custodian_address != eth_custodian_address {
        Err(DepositError::CustodianAddressMismatch)
    } else if event.fee >= event.amount {
        Err(DepositError::InsufficientAmountForFee)
    } else if event.token_message_data is Eth && !transfer_call_frameable(forwarding_args(event)) {
        Err(DepositError::PayloadTooLong)
    } else {
        Ok(finish_deposit_args(current_account_id, predecessor_account_id, event, proof_key))
    }
}

/// What the bytes of a proof record lead to: a refusal where deposits are
/// paused for the caller, where the bytes hold no proof record or where its
/// log entry holds no deposit event; else what the event leads to, with the
/// proof's identifier. An event that was read from bytes is never refused for
/// a payload too long.
pub open spec fn deposit_outcome_of_bytes(
    paused_mask: PausedMask,
    eth_custodian_address: Seq<u8>,
    current_account_id: Seq<char>,
    predecessor_account_id: Seq<char>,
    raw_proof: Seq<u8>,
) -> Result<FinishDepositView, DepositError> {
    if paused_for(paused_mask, PAUSE_DEPOSIT, current_account_id == predecessor_account_id) {
        Err(DepositError::Paused)
    } else {
        match read_proof(raw_proof) {
            None => Err(DepositError::MalformedProof),
            Some(p) => match decode_event(p.log_entry_data) {
                None => Err(DepositError::MalformedEvent),
                Some(event) => deposit_outcome(
                    paused_mask,
                    eth_custodian_address,
                    current_account_id,
                    predecessor_account_id,
                    event,
                    proof_key(p.log_index, p.receipt_index, p.header_data),
                ),
            },
        }
    }
}

/// An event whose fee is not less than its amount is refused, whoever calls
/// and whatever else the event holds.
pub proof fn lemma_fee_not_below_amount_is_refused(
    paused_mask: PausedMask,
    eth_custodian_address: Seq<u8>,
    current_account_id: Seq<char>,
    predecessor_account_id: Seq<char>,
    event: DepositedEventView,
    proof_key: Seq<char>,
)
    requires
        event.fee >= event.amount,
    ensures
        deposit_outcome(
            paused_mask,
            eth_custodian_address,
            current_account_id,
            predecessor_account_id,
            event,
            proof_key,
        ) is Err,
{
}

/// The forwarding payload of an event that was read from a log entry always
/// fits its frames: the account has at most 64 characters and the message
/// 105 more, so no deposit from bytes is refused for a payload too long.
pub proof fn lemma_decoded_payload_fits(
    paused_mask: PausedMask,
    eth_custodian_address: Seq<u8>,
    current_account_id: Seq<char>,
    predecessor_account_id: Seq<char>,
    raw_proof: Seq<u8>,
)
    ensures
        forall|log_entry: Seq<u8>|
            #[trigger] decode_event(log_entry) matches Some(event) ==> (event.token_message_data
                is Eth ==> transfer_call_frameable(forwarding_args(event))),
        deposit_outcome_of_bytes(
            paused_mask,
            eth_custodian_address,
            current_account_id,
            predecessor_account_id,
            raw_proof,
        ) != Err::<FinishDepositView, DepositError>(DepositError::PayloadTooLong),
{
    assert forall|log_entry: Seq<u8>| #[trigger]
        decode_event(log_entry) matches Some(event) ==> (event.token_message_data is Eth
            ==> transfer_call_frameable(forwarding_args(event))) by {
        if decode_event(log_entry) is Some {
            let event = decode_event(log_entry).unwrap();
            let raw = read_log_entry(log_entry).unwrap();
            lemma_parsed_message(raw.message, raw.fee);
            if event.token_message_data is Eth {
                let args = forwarding_args(event);
                lemma_message_text(event.token_message_data->message);
                vstd::utf8::is_ascii_chars_encode_utf8(args.receiver_id);
                vstd::utf8::is_ascii_chars_encode_utf8(args.msg);
            }
        }
    }
}

/// A result with its instruction seen as the contracts see it.
pub open spec fn outcome_view(res: Result<FinishDepositCallArgs, DepositError>) -> Result<
    FinishDepositView,
    DepositError,
> {
    match res {
        Ok(args) => Ok(args@),
        Err(e) => Err(e),
    }
}

impl EthConnector {
    /// Decide on a deposit from the bytes of its proof record: read the
    /// record and the deposit event in its log entry, and decide on the
    /// event. Nothing is written: the instruction is applied in a later step.
    pub fn deposit(
        &self,
        current_account_id: &AccountId,
        predecessor_account_id: &AccountId,
        raw_proof: &[u8],
    ) -> (res: Result<FinishDepositCallArgs, DepositError>)
        ensures
            outcome_view(res) == deposit_outcome_of_bytes(
                self.paused_mask,
                self.eth_custodian_address@,
                current_account_id@,
                predecessor_account_id@,
                raw_proof@,
            ),
            res matches Err(e) ==> e != DepositError::PayloadTooLong,
    {
        proof {
            lemma_decoded_payload_fits(
                self.paused_mask,
                self.eth_custodian_address@,
                current_account_id@,
                predecessor_account_id@,
                raw_proof@,
            );
        }
        let is_owner = *current_account_id == *predecessor_account_id;
        if self.assert_not_paused(PAUSE_DEPOSIT, is_owner).is_err() {
            return Err(DepositError::Paused);
        }
        let proof = match Proof::try_from_slice(raw_proof) {
            Ok(proof) => proof,
            Err(_) => {
                return Err(DepositError::MalformedProof);
            },
        };
        let event = match DepositedEvent::from_log_entry_data(proof.log_entry_data.as_slice()) {
            Ok(event) => event,
            Err(_) => {
                return Err(DepositError::MalformedEvent);
            },
        };
        self.deposit_event(current_account_id, predecessor_account_id, event, proof.get_key())
    }

    /// Decide on a deposit event that was read from a verified log entry.
    /// The caller is the owner when it is the contract's own account. Nothing
    /// is written: the instruction is applied in a later step.
    pub fn deposit_event(
        &self,
        current_account_id: &AccountId,
        predecessor_account_id: &AccountId,
        event: DepositedEvent,
        proof_key: String,
    ) -> (res: Result<FinishDepositCallArgs, DepositError>)
        ensures
            outcome_view(res) == deposit_outcome(
                self.paused_mask,
                self.eth_custodian_address@,
                current_account_id@,
                predecessor_account_id@,
                event@,
                proof_key@,
            ),
            event.fee >= event.amount ==> res is Err,
    {
        let is_owner = *current_account_id == *predecessor_account_id;
        if self.assert_not_paused(PAUSE_DEPOSIT, is_owner).is_err() {
            return Err(DepositError::Paused);
        }
        if !same_address(&event.eth_custodian_address, &self.eth_custodian_address) {
            return Err(DepositError::CustodianAddressMismatch);
        }
        if event.fee >= event.amount {
            return Err(DepositError::InsufficientAmountForFee);
        }
        let ghost event_view = event@;
        match event.token_message_data {
            TokenMessageData::Near(account_id) => Ok(
                FinishDepositCallArgs {
                    new_owner_id: account_id,
                    amount: event.amount,
                    proof_key,
                    relayer_id: predecessor_account_id.clone(),
                    fee: event.fee,
                    msg: None,
                },
            ),
            TokenMessageData::Eth { receiver_id, message } => {
                let transfer = TransferCallCallArgs {
                    receiver_id,
                    amount: event.amount,
                    memo: None,
                    msg: message.encode(),
                };
                assert(transfer@ == forwarding_args(event_view));
                match transfer.try_to_vec() {
                    None => Err(DepositError::PayloadTooLong),
                    Some(bytes) => Ok(
                        FinishDepositCallArgs {
                            new_owner_id: current_account_id.clone(),
                            amount: event.amount,
                            proof_key,
                            relayer_id: predecessor_account_id.clone(),
                            fee: event.fee,
                            msg: Some(bytes),
                        },
                    ),
                }
            },
        }
    }
}

} // verus!
