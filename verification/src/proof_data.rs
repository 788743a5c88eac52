//! The proof record of a deposit event and the identifier under which a
//! consumed proof is remembered.

use vstd::bytes::{
    lemma_auto_spec_u32_to_from_le_bytes, lemma_auto_spec_u64_to_from_le_bytes,
    spec_u32_to_le_bytes, spec_u64_to_le_bytes, u32_to_le_bytes, u64_to_le_bytes,
};
use crate::text::{decimal, push_decimal};
use crate::wire::{
    extend, frameable, framed, has_at, lemma_has_at_concat, lemma_read_complete, lemma_read_sound,
    put_framed, read_framed, read_u32, read_u64, take_framed, take_u32, take_u64,
};
use vstd::prelude::*;

verus! {

/// Evidence that an event took place on the other chain: the log entry, the
/// receipt and the header it belongs to, and the path that ties them.
#[derive(Debug, Clone)]
pub struct Proof {
    pub log_index: u64,
    pub log_entry_data: Vec<u8>,
    pub receipt_index: u64,
    pub receipt_data: Vec<u8>,
    pub header_data: Vec<u8>,
    pub proof: Vec<Vec<u8>>,
}

/// A proof record as the contracts see it.
pub struct ProofView {
    pub log_index: u64,
    pub log_entry_data: Seq<u8>,
    pub receipt_index: u64,
    pub receipt_data: Seq<u8>,
    pub header_data: Seq<u8>,
    pub proof: Seq<Seq<u8>>,
}

/// The byte strings that a sequence of stored segments stands for.
pub open spec fn segment_views(segments: Seq<Vec<u8>>) -> Seq<Seq<u8>> {
    segments.map_values(|segment: Vec<u8>| segment@)
}

impl View for Proof {
    type V = ProofView;

    open spec fn view(&self) -> ProofView {
        ProofView {
            log_index: self.log_index,
            log_entry_data: self.log_entry_data@,
            receipt_index: self.receipt_index,
            receipt_data: self.receipt_data@,
            header_data: self.header_data@,
            proof: segment_views(self.proof@),
        }
    }
}

impl Default for Proof {
    fn default() -> (p: Proof)
        ensures
            p.log_index == 0,
            p.receipt_index == 0,
            p.log_entry_data@.len() == 0,
            p.receipt_data@.len() == 0,
            p.header_data@.len() == 0,
            p.proof@.len() == 0,
    {
        Proof {
            log_index: 0,
            log_entry_data: Vec::new(),
            receipt_index: 0,
            receipt_data: Vec::new(),
            header_data: Vec::new(),
            proof: Vec::new(),
        }
    }
}

/// The SHA-256 digest of `data`.
pub uninterp spec fn sha256_digest(data: Seq<u8>) -> Seq<u8>;

/// Number of bytes of a SHA-256 digest.
pub const DIGEST_LENGTH: usize = 32;

/// Number of characters of a proof's identifier: three for each byte of the
/// digest.
pub const KEY_LENGTH: usize = 96;

/// Calls `near_sdk::env::sha256`, which hands the bytes to the host's SHA-256
/// and returns the digest. The contract claims that the result is the digest
/// of exactly these bytes and has 32 bytes. The host charges the call to the
/// compute budget of the running contract call and aborts that call when the
/// budget is spent.
#[verifier::external_body]
fn sha256(data: &[u8]) -> (digest: Vec<u8>)
    ensures
        digest@ == sha256_digest(data@),
        digest@.len() == DIGEST_LENGTH,
{
    near_sdk::env::sha256(data)
}

/// The bytes of a digest, each written in three decimal digits, one after the
/// other.
pub open spec fn key_of_digest(digest: Seq<u8>) -> Seq<char>
    decreases digest.len(),
{
    if digest.len() == 0 {
        Seq::empty()
    } else {
        key_of_digest(digest.drop_last()) + decimal(digest.last())
    }
}

/// What is hashed to identify a proof: the log index and the receipt index,
/// eight bytes each with the low byte first, then the header.
pub open spec fn key_preimage(log_index: u64, receipt_index: u64, header_data: Seq<u8>) -> Seq<u8> {
    spec_u64_to_le_bytes(log_index) + spec_u64_to_le_bytes(receipt_index) + header_data
}

/// The identifier of the proof with these three fields.
pub open spec fn proof_key(log_index: u64, receipt_index: u64, header_data: Seq<u8>) -> Seq<char> {
    key_of_digest(sha256_digest(key_preimage(log_index, receipt_index, header_data)))
}

/// An identifier has three characters for each byte of the digest.
pub proof fn lemma_key_length(digest: Seq<u8>)
    ensures
        key_of_digest(digest).len() == 3 * digest.len(),
    decreases digest.len(),
{
    if digest.len() > 0 {
        lemma_key_length(digest.drop_last());
    }
}

/// The identifier that stands for a digest: three characters for each of its
/// bytes.
pub fn key_from_digest(digest: &[u8]) -> (key: String)
    ensures
        key@ == key_of_digest(digest@),
        key@.len() == 3 * digest@.len(),
{
    proof {
        lemma_key_length(digest@);
    }
    let mut key = String::new();
    let mut i: usize = 0;
    while i < digest.len()
        invariant
            i <= digest@.len(),
            key@ == key_of_digest(digest@.take(i as int)),
        decreases digest@.len() - i,
    {
        proof {
            assert(digest@.take(i + 1).drop_last() =~= digest@.take(i as int));
        }
        push_decimal(&mut key, digest[i]);
        i += 1;
    }
    assert(digest@.take(i as int) =~= digest@);
    key
}

impl Proof {
    /// The identifier of this proof, of the same length for every proof. Two
    /// proofs with the same log index, receipt index and header have the same
    /// identifier; the log entry, the receipt and the path do not enter it.
    /// The digest is computed by the host, which charges the work to the
    /// compute budget of the running contract call and aborts that call when
    /// the budget is spent.
    pub fn get_key(&self) -> (key: String)
        ensures
            key@ == proof_key(self.log_index, self.receipt_index, self.header_data@),
            key@.len() == KEY_LENGTH,
    {
        let mut data = u64_to_le_bytes(self.log_index);
        let mut receipt = u64_to_le_bytes(self.receipt_index);
        data.append(&mut receipt);
        let mut i: usize = 0;
        while i < self.header_data.len()
            invariant
                i <= self.header_data@.len(),
                data@ == spec_u64_to_le_bytes(self.log_index) + spec_u64_to_le_bytes(
                    self.receipt_index,
                ) + self.header_data@.take(i as int),
            decreases self.header_data@.len() - i,
        {
            data.push(self.header_data[i]);
            assert(self.header_data@.take(i + 1) =~= self.header_data@.take(i as int).push(
                self.header_data@[i as int],
            ));
            i += 1;
        }
        assert(self.header_data@.take(i as int) =~= self.header_data@);
        let digest = sha256(data.as_slice());
        key_from_digest(digest.as_slice())
    }
}

/// The segments of a path, each in its frame, one after the other.
pub open spec fn segments_body(segments: Seq<Seq<u8>>) -> Seq<u8>
    decreases segments.len(),
{
    if segments.len() == 0 {
        Seq::empty()
    } else {
        framed(segments.first()) + segments_body(segments.drop_first())
    }
}

/// One more segment at the end adds its frame at the end.
pub proof fn lemma_segments_body_push(segments: Seq<Seq<u8>>, segment: Seq<u8>)
    ensures
        segments_body(segments.push(segment)) == segments_body(segments) + framed(segment),
    decreases segments.len(),
{
    let more = segments.push(segment);
    if segments.len() == 0 {
        assert(more.drop_first() =~= Seq::<Seq<u8>>::empty());
        assert(more.first() == segment);
        assert(segments_body(more.drop_first()) =~= Seq::<u8>::empty());
        assert(segments_body(more) =~= framed(segment));
        assert(segments_body(segments) + framed(segment) =~= framed(segment));
    } else {
        lemma_segments_body_push(segments.drop_first(), segment);
        assert(more.drop_first() =~= segments.drop_first().push(segment));
        assert(more.first() == segments.first());
        assert(segments_body(more) =~= segments_body(segments) + framed(segment));
    }
}

/// Whether every part of the record is short enough for its frame.
pub open spec fn encodable(p: ProofView) -> bool {
    &&& frameable(p.log_entry_data)
    &&& frameable(p.receipt_data)
    &&& frameable(p.header_data)
    &&& p.proof.len() <= u32::MAX
    &&& forall|i: int| 0 <= i < p.proof.len() ==> frameable(#[trigger] p.proof[i])
}

/// The fields before the path, in the binary layout.
pub open spec fn proof_head(p: ProofView) -> Seq<u8> {
    spec_u64_to_le_bytes(p.log_index) + framed(p.log_entry_data) + spec_u64_to_le_bytes(
        p.receipt_index,
    ) + framed(p.receipt_data) + framed(p.header_data)
}

/// The record in the binary layout: log index, log entry, receipt index,
/// receipt, header, then the number of segments and the segments.
pub open spec fn proof_bytes(p: ProofView) -> Seq<u8> {
    proof_head(p) + spec_u32_to_le_bytes(p.proof.len() as u32) + segments_body(p.proof)
}

/// `count` framed segments from `at` on, with the position behind them.
pub open spec fn read_segments(bytes: Seq<u8>, at: int, count: nat) -> Option<(Seq<Seq<u8>>, int)>
    decreases count,
{
    if count == 0 {
        Some((Seq::empty(), at))
    } else {
        match read_framed(bytes, at) {
            Some((segment, next)) => match read_segments(bytes, next, (count - 1) as nat) {
                Some((rest, end)) => Some((seq![segment] + rest, end)),
                None => None,
            },
            None => None,
        }
    }
}

/// The record that `bytes` holds from their first to their last byte.
pub open spec fn read_proof(bytes: Seq<u8>) -> Option<ProofView> {
    match read_u64(bytes, 0) {
        Some((log_index, a)) => match read_framed(bytes, a) {
            Some((log_entry_data, b)) => match read_u64(bytes, b) {
                Some((receipt_index, c)) => match read_framed(bytes, c) {
                    Some((receipt_data, d)) => match read_framed(bytes, d) {
                        Some((header_data, e)) => match read_u32(bytes, e) {
                            Some((count, f)) => match read_segments(bytes, f, count as nat) {
                                Some((proof, end)) => if end == bytes.len() {
                                    Some(
                                        ProofView {
                                            log_index,
                                            log_entry_data,
                                            receipt_index,
                                            receipt_data,
                                            header_data,
                                            proof,
                                        },
                                    )
                                } else {
                                    None
                                },
                                None => None,
                            },
                            None => None,
                        },
                        None => None,
                    },
                    None => None,
                },
                None => None,
            },
            None => None,
        },
        None => None,
    }
}

/// The segments that were read are those that stand there.
pub proof fn lemma_segments_sound(bytes: Seq<u8>, at: int, count: nat)
    requires
        0 <= at <= bytes.len(),
    ensures
        read_segments(bytes, at, count) matches Some((segments, end)) ==> {
            &&& segments.len() == count
            &&& forall|i: int| 0 <= i < segments.len() ==> frameable(#[trigger] segments[i])
            &&& has_at(bytes, at, segments_body(segments))
            &&& end == at + segments_body(segments).len()
        },
    decreases count,
{
    if count == 0 {
        assert(bytes.subrange(at, at) =~= Seq::<u8>::empty());
    } else if read_segments(bytes, at, count) is Some {
        lemma_read_sound(bytes, at);
        lemma_auto_spec_u32_to_from_le_bytes();
        let first = read_framed(bytes, at)->0;
        lemma_segments_sound(bytes, first.1, (count - 1) as nat);
        let rest = read_segments(bytes, first.1, (count - 1) as nat)->0;
        let segments = seq![first.0] + rest.0;
        assert(segments.first() == first.0);
        assert(segments.drop_first() =~= rest.0);
        lemma_has_at_concat(bytes, at, framed(first.0), segments_body(rest.0));
        assert forall|i: int| 0 <= i < segments.len() implies frameable(
            #[trigger] segments[i],
        ) by {
            if i > 0 {
                assert(segments[i] == rest.0[i - 1]);
            }
        }
    }
}

/// The segments that stand there are those that are read.
pub proof fn lemma_segments_complete(bytes: Seq<u8>, at: int, segments: Seq<Seq<u8>>)
    requires
        forall|i: int| 0 <= i < segments.len() ==> frameable(#[trigger] segments[i]),
        has_at(bytes, at, segments_body(segments)),
    ensures
        read_segments(bytes, at, segments.len()) == Some(
            (segments, at + segments_body(segments).len()),
        ),
    decreases segments.len(),
{
    if segments.len() > 0 {
        let first = segments.first();
        let rest = segments.drop_first();
        lemma_auto_spec_u32_to_from_le_bytes();
        lemma_has_at_concat(bytes, at, framed(first), segments_body(rest));
        lemma_read_complete(bytes, at);
        assert(frameable(segments[0]));
        assert forall|i: int| 0 <= i < rest.len() implies frameable(#[trigger] rest[i]) by {
            assert(rest[i] == segments[i + 1]);
        }
        lemma_segments_complete(bytes, at + 4 + first.len(), rest);
        assert(seq![first] + rest =~= segments);
    }
}

/// A record that was read from bytes is written as exactly these bytes.
#[verifier::rlimit(50)]
pub proof fn lemma_read_proof_sound(bytes: Seq<u8>)
    ensures
        read_proof(bytes) matches Some(p) ==> encodable(p) && proof_bytes(p) == bytes,
{
    if read_proof(bytes) is Some {
        let p = read_proof(bytes)->0;
        lemma_read_sound(bytes, 0);
        let a = read_u64(bytes, 0).unwrap().1;
        lemma_read_sound(bytes, a);
        let b = read_framed(bytes, a).unwrap().1;
        lemma_read_sound(bytes, b);
        let c = read_u64(bytes, b).unwrap().1;
        lemma_read_sound(bytes, c);
        let d = read_framed(bytes, c).unwrap().1;
        lemma_read_sound(bytes, d);
        let e = read_framed(bytes, d).unwrap().1;
        lemma_read_sound(bytes, e);
        let f = read_u32(bytes, e).unwrap().1;
        let count = read_u32(bytes, e).unwrap().0;
        lemma_segments_sound(bytes, f, count as nat);
        lemma_auto_spec_u64_to_from_le_bytes();
        lemma_auto_spec_u32_to_from_le_bytes();
        let upto1 = spec_u64_to_le_bytes(p.log_index);
        let upto2 = upto1 + framed(p.log_entry_data);
        let upto3 = upto2 + spec_u64_to_le_bytes(p.receipt_index);
        let upto4 = upto3 + framed(p.receipt_data);
        let upto5 = upto4 + framed(p.header_data);
        let upto6 = upto5 + spec_u32_to_le_bytes(p.proof.len() as u32);
        lemma_has_at_concat(bytes, 0, upto1, framed(p.log_entry_data));
        lemma_has_at_concat(bytes, 0, upto2, spec_u64_to_le_bytes(p.receipt_index));
        lemma_has_at_concat(bytes, 0, upto3, framed(p.receipt_data));
        lemma_has_at_concat(bytes, 0, upto4, framed(p.header_data));
        lemma_has_at_concat(bytes, 0, upto5, spec_u32_to_le_bytes(p.proof.len() as u32));
        lemma_has_at_concat(bytes, 0, upto6, segments_body(p.proof));
        assert(has_at(bytes, 0, proof_bytes(p)));
        assert(bytes.subrange(0, bytes.len() as int) =~= bytes);
    }
}

/// A record that fits its frames is read back from the bytes it is written
/// as.
#[verifier::rlimit(50)]
pub proof fn lemma_read_proof_complete(p: ProofView)
    requires
        encodable(p),
    ensures
        read_proof(proof_bytes(p)) == Some(p),
{
    let bytes = proof_bytes(p);
    lemma_auto_spec_u64_to_from_le_bytes();
    lemma_auto_spec_u32_to_from_le_bytes();
    let upto1 = spec_u64_to_le_bytes(p.log_index);
    let upto2 = upto1 + framed(p.log_entry_data);
    let upto3 = upto2 + spec_u64_to_le_bytes(p.receipt_index);
    let upto4 = upto3 + framed(p.receipt_data);
    let upto5 = upto4 + framed(p.header_data);
    let upto6 = upto5 + spec_u32_to_le_bytes(p.proof.len() as u32);
    assert(bytes.subrange(0, bytes.len() as int) =~= bytes);
    assert(has_at(bytes, 0, upto6 + segments_body(p.proof)));
    lemma_has_at_concat(bytes, 0, upto6, segments_body(p.proof));
    lemma_has_at_concat(bytes, 0, upto5, spec_u32_to_le_bytes(p.proof.len() as u32));
    lemma_has_at_concat(bytes, 0, upto4, framed(p.header_data));
    lemma_has_at_concat(bytes, 0, upto3, framed(p.receipt_data));
    lemma_has_at_concat(bytes, 0, upto2, spec_u64_to_le_bytes(p.receipt_index));
    lemma_has_at_concat(bytes, 0, upto1, framed(p.log_entry_data));
    lemma_read_complete(bytes, 0);
    lemma_read_complete(bytes, upto1.len() as int);
    lemma_read_complete(bytes, upto2.len() as int);
    lemma_read_complete(bytes, upto3.len() as int);
    lemma_read_complete(bytes, upto4.len() as int);
    lemma_read_complete(bytes, upto5.len() as int);
    lemma_segments_complete(bytes, upto6.len() as int, p.proof);
}

/// The bytes do not hold a proof record.
#[derive(Debug, Clone, Copy, PartialEq, Eq, Structural)]
pub struct MalformedProof;

impl Proof {
    /// Read `count` framed segments from `at` on.
    fn take_segments(bytes: &[u8], at: usize, count: u32) -> (res: Option<(Vec<Vec<u8>>, usize)>)
        ensures
            match res {
                Some((segments, end)) => read_segments(bytes@, at as int, count as nat) == Some(
                    (segment_views(segments@), end as int),
                ),
                None => read_segments(bytes@, at as int, count as nat) is None,
            },
    {
        let mut segments: Vec<Vec<u8>> = Vec::new();
        let mut pos = at;
        let mut i: u32 = 0;
        proof {
            assert(segment_views(segments@) =~= Seq::<Seq<u8>>::empty());
            match read_segments(bytes@, at as int, count as nat) {
                Some((rest, end)) => {
                    assert(segment_views(segments@) + rest =~= rest);
                },
                None => {},
            }
        }
        while i < count
            invariant
                i <= count,
                read_segments(bytes@, at as int, count as nat) == (match read_segments(
                    bytes@,
                    pos as int,
                    (count - i) as nat,
                ) {
                    Some((rest, end)) => Some((segment_views(segments@) + rest, end)),
                    None => None,
                }),
            decreases count - i,
        {
            let ghost done = segment_views(segments@);
            match take_framed(bytes, pos) {
                None => {
                    return None;
                },
                Some((segment, next)) => {
                    proof {
                        assert(segment_views(segments@.push(segment)) =~= done.push(segment@));
                        match read_segments(bytes@, next as int, (count - i - 1) as nat) {
                            Some((rest, end)) => {
                                assert(done + (seq![segment@] + rest) =~= done.push(segment@)
                                    + rest);
                            },
                            None => {},
                        }
                    }
                    segments.push(segment);
                    pos = next;
                },
            }
            i += 1;
        }
        proof {
            assert(segment_views(segments@) + Seq::<Seq<u8>>::empty() =~= segment_views(segments@));
        }
        Some((segments, pos))
    }

    /// Read a record from bytes in the binary layout. The bytes have to hold
    /// the record from their first to their last byte.
    pub fn try_from_slice(bytes: &[u8]) -> (res: Result<Proof, MalformedProof>)
        ensures
            match res {
                Ok(p) => encodable(p@) && proof_bytes(p@) == bytes@,
                Err(_) => forall|v: ProofView| encodable(v) ==> proof_bytes(v) != bytes@,
            },
            match res {
                Ok(p) => read_proof(bytes@) == Some(p@),
                Err(_) => read_proof(bytes@) is None,
            },
    {
        proof {
            lemma_read_proof_sound(bytes@);
            assert forall|v: ProofView| encodable(v) && proof_bytes(v) == bytes@ implies read_proof(
                bytes@,
            ) is Some by {
                lemma_read_proof_complete(v);
            }
        }
        let (log_index, a) = match take_u64(bytes, 0) {
            Some(read) => read,
            None => {
                return Err(MalformedProof);
            },
        };
        let (log_entry_data, b) = match take_framed(bytes, a) {
            Some(read) => read,
            None => {
                return Err(MalformedProof);
            },
        };
        let (receipt_index, c) = match take_u64(bytes, b) {
            Some(read) => read,
            None => {
                return Err(MalformedProof);
            },
        };
        let (receipt_data, d) = match take_framed(bytes, c) {
            Some(read) => read,
            None => {
                return Err(MalformedProof);
            },
        };
        let (header_data, e) = match take_framed(bytes, d) {
            Some(read) => read,
            None => {
                return Err(MalformedProof);
            },
        };
        let (count, f) = match take_u32(bytes, e) {
            Some(read) => read,
            None => {
                return Err(MalformedProof);
            },
        };
        let (proof, end) = match Self::take_segments(bytes, f, count) {
            Some(read) => read,
            None => {
                return Err(MalformedProof);
            },
        };
        if end != bytes.len() {
            return Err(MalformedProof);
        }
        Ok(Proof { log_index, log_entry_data, receipt_index, receipt_data, header_data, proof })
    }

    /// The record in the binary layout, `None` where a part is too long for
    /// its frame.
    pub fn try_to_vec(&self) -> (res: Option<Vec<u8>>)
        ensures
            match res {
                Some(bytes) => encodable(self@) && bytes@ == proof_bytes(self@),
                None => !encodable(self@),
            },
    {
        if self.log_entry_data.len() > u32::MAX as usize || self.receipt_data.len()
            > u32::MAX as usize || self.header_data.len() > u32::MAX as usize || self.proof.len()
            > u32::MAX as usize {
            return None;
        }
        let mut out = u64_to_le_bytes(self.log_index);
        put_framed(&mut out, self.log_entry_data.as_slice());
        let receipt_index = u64_to_le_bytes(self.receipt_index);
        extend(&mut out, receipt_index.as_slice());
        put_framed(&mut out, self.receipt_data.as_slice());
        put_framed(&mut out, self.header_data.as_slice());
        assert(out@ =~= proof_head(self@));
        let count = u32_to_le_bytes(self.proof.len() as u32);
        extend(&mut out, count.as_slice());
        let ghost head = out@;
        let mut i: usize = 0;
        assert(self@.proof.take(0) =~= Seq::<Seq<u8>>::empty());
        assert(out@ =~= head + segments_body(self@.proof.take(0)));
        while i < self.proof.len()
            invariant
                i <= self.proof@.len(),
                self@.proof == segment_views(self.proof@),
                forall|j: int| 0 <= j < i ==> frameable(#[trigger] self@.proof[j]),
                out@ == head + segments_body(self@.proof.take(i as int)),
            decreases self.proof@.len() - i,
        {
            if self.proof[i].len() > u32::MAX as usize {
                assert(!frameable(self@.proof[i as int]));
                return None;
            }
            proof {
                lemma_segments_body_push(self@.proof.take(i as int), self@.proof[i as int]);
                assert(self@.proof.take(i + 1) =~= self@.proof.take(i as int).push(
                    self@.proof[i as int],
                ));
            }
            put_framed(&mut out, self.proof[i].as_slice());
            assert(out@ =~= head + segments_body(self@.proof.take(i + 1)));
            i += 1;
        }
        assert(self@.proof.take(i as int) =~= self@.proof);
        assert(out@ =~= proof_bytes(self@));
        Some(out)
    }
}

} // verus!
