//! The binary layout of records: integers with the low byte first, and
//! byte strings behind a four-byte length.

use vstd::bytes::{
    lemma_auto_spec_u32_to_from_le_bytes, lemma_auto_spec_u64_to_from_le_bytes,
    spec_u32_from_le_bytes, spec_u32_to_le_bytes, spec_u64_from_le_bytes, spec_u64_to_le_bytes,
    u32_from_le_bytes, u32_to_le_bytes, u64_from_le_bytes,
};
use vstd::prelude::*;
use vstd::slice::{slice_subrange, slice_to_vec};

verus! {

/// A byte string behind its length.
pub open spec fn framed(bytes: Seq<u8>) -> Seq<u8> {
    spec_u32_to_le_bytes(bytes.len() as u32) + bytes
}

/// Whether a byte string is short enough for its length to fit in the frame.
pub open spec fn frameable(bytes: Seq<u8>) -> bool {
    bytes.len() <= u32::MAX
}

/// Append `src` to `out`.
pub fn extend(out: &mut Vec<u8>, src: &[u8])
    ensures
        final(out)@ == old(out)@ + src@,
{
    let mut i: usize = 0;
    assert(out@ =~= old(out)@ + src@.take(0));
    while i < src.len()
        invariant
            i <= src@.len(),
            out@ == old(out)@ + src@.take(i as int),
        decreases src@.len() - i,
    {
        out.push(src[i]);
        assert(out@ =~= old(out)@ + src@.take(i + 1));
        i += 1;
    }
    assert(src@.take(i as int) =~= src@);
}

/// Append `src` behind its length to `out`.
pub fn put_framed(out: &mut Vec<u8>, src: &[u8])
    requires
        frameable(src@),
    ensures
        final(out)@ == old(out)@ + framed(src@),
{
    let len = u32_to_le_bytes(src.len() as u32);
    extend(out, len.as_slice());
    extend(out, src);
    assert(out@ =~= old(out)@ + framed(src@));
}

/// Whether `piece` stands in `bytes` at position `at`.
pub open spec fn has_at(bytes: Seq<u8>, at: int, piece: Seq<u8>) -> bool {
    0 <= at && at + piece.len() <= bytes.len() && bytes.subrange(at, at + piece.len()) == piece
}

/// Two pieces stand one behind the other exactly when their joining stands
/// there.
pub proof fn lemma_has_at_concat(bytes: Seq<u8>, at: int, first: Seq<u8>, second: Seq<u8>)
    ensures
        has_at(bytes, at, first + second) <==> has_at(bytes, at, first) && has_at(
            bytes,
            at + first.len(),
            second,
        ),
{
    let both = first + second;
    if has_at(bytes, at, both) {
        assert(bytes.subrange(at, at + first.len()) =~= both.subrange(0, first.len() as int));
        assert(both.subrange(0, first.len() as int) =~= first);
        assert(bytes.subrange(at + first.len(), at + first.len() + second.len()) =~= both.subrange(
            first.len() as int,
            both.len() as int,
        ));
        assert(both.subrange(first.len() as int, both.len() as int) =~= second);
    }
    if has_at(bytes, at, first) && has_at(bytes, at + first.len(), second) {
        assert(bytes.subrange(at, at + both.len()) =~= bytes.subrange(at, at + first.len())
            + bytes.subrange(at + first.len(), at + first.len() + second.len()));
    }
}

/// The 32-bit integer at `at`, with the position behind it.
pub open spec fn read_u32(bytes: Seq<u8>, at: int) -> Option<(u32, int)> {
    if 0 <= at && at + 4 <= bytes.len() {
        Some((spec_u32_from_le_bytes(bytes.subrange(at, at + 4)), at + 4))
    } else {
        None
    }
}

/// The 64-bit integer at `at`, with the position behind it.
pub open spec fn read_u64(bytes: Seq<u8>, at: int) -> Option<(u64, int)> {
    if 0 <= at && at + 8 <= bytes.len() {
        Some((spec_u64_from_le_bytes(bytes.subrange(at, at + 8)), at + 8))
    } else {
        None
    }
}

/// The framed byte string at `at`, with the position behind it.
pub open spec fn read_framed(bytes: Seq<u8>, at: int) -> Option<(Seq<u8>, int)> {
    match read_u32(bytes, at) {
        Some((len, start)) => if start + len <= bytes.len() {
            Some((bytes.subrange(start, start + len), start + len))
        } else {
            None
        },
        None => None,
    }
}

/// What was read at `at` is what stands there.
pub proof fn lemma_read_sound(bytes: Seq<u8>, at: int)
    ensures
        read_u32(bytes, at) matches Some((v, next)) ==> next == at + 4 && has_at(
            bytes,
            at,
            spec_u32_to_le_bytes(v),
        ),
        read_u64(bytes, at) matches Some((v, next)) ==> next == at + 8 && has_at(
            bytes,
            at,
            spec_u64_to_le_bytes(v),
        ),
        read_framed(bytes, at) matches Some((v, next)) ==> next == at + 4 + v.len() && frameable(v)
            && has_at(bytes, at, framed(v)),
{
    lemma_auto_spec_u32_to_from_le_bytes();
    lemma_auto_spec_u64_to_from_le_bytes();
    if read_u32(bytes, at) is Some {
        let piece = bytes.subrange(at, at + 4);
        assert(spec_u32_to_le_bytes(spec_u32_from_le_bytes(piece)) == piece);
    }
    if read_u64(bytes, at) is Some {
        let piece = bytes.subrange(at, at + 8);
        assert(spec_u64_to_le_bytes(spec_u64_from_le_bytes(piece)) == piece);
    }
    if read_framed(bytes, at) is Some {
        let read = read_framed(bytes, at)->0;
        let v = read.0;
        let piece = bytes.subrange(at, at + 4);
        assert(spec_u32_to_le_bytes(spec_u32_from_le_bytes(piece)) == piece);
        assert(bytes.subrange(at, at + 4 + v.len()) =~= framed(v));
    }
}

/// What stands at `at` is what is read there.
pub proof fn lemma_read_complete(bytes: Seq<u8>, at: int)
    ensures
        forall|v: u32| #[trigger]
            has_at(bytes, at, spec_u32_to_le_bytes(v)) ==> read_u32(bytes, at) == Some((v, at + 4)),
        forall|v: u64| #[trigger]
            has_at(bytes, at, spec_u64_to_le_bytes(v)) ==> read_u64(bytes, at) == Some((v, at + 8)),
        forall|v: Seq<u8>|
            frameable(v) && #[trigger] has_at(bytes, at, framed(v)) ==> read_framed(bytes, at)
                == Some((v, at + 4 + v.len())),
{
    lemma_auto_spec_u32_to_from_le_bytes();
    lemma_auto_spec_u64_to_from_le_bytes();
    assert forall|v: Seq<u8>| frameable(v) && #[trigger] has_at(bytes, at, framed(v)) implies read_framed(
        bytes,
        at,
    ) == Some((v, at + 4 + v.len())) by {
        let len = spec_u32_to_le_bytes(v.len() as u32);
        assert(len.len() == 4);
        assert(bytes.subrange(at, at + 4) =~= framed(v).subrange(0, 4));
        assert(framed(v).subrange(0, 4) =~= len);
        assert(bytes.subrange(at + 4, at + 4 + v.len()) =~= framed(v).subrange(
            4,
            4 + v.len() as int,
        ));
        assert(framed(v).subrange(4, 4 + v.len() as int) =~= v);
    }
}

/// Read the 32-bit integer at `at`.
pub fn take_u32(bytes: &[u8], at: usize) -> (res: Option<(u32, usize)>)
    ensures
        match res {
            Some((v, next)) => read_u32(bytes@, at as int) == Some((v, next as int)),
            None => read_u32(bytes@, at as int) is None,
        },
{
    if bytes.len() < 4 || at > bytes.len() - 4 {
        return None;
    }
    let v = u32_from_le_bytes(slice_subrange(bytes, at, at + 4));
    Some((v, at + 4))
}

/// Read the 64-bit integer at `at`.
pub fn take_u64(bytes: &[u8], at: usize) -> (res: Option<(u64, usize)>)
    ensures
        match res {
            Some((v, next)) => read_u64(bytes@, at as int) == Some((v, next as int)),
            None => read_u64(bytes@, at as int) is None,
        },
{
    if bytes.len() < 8 || at > bytes.len() - 8 {
        return None;
    }
    let v = u64_from_le_bytes(slice_subrange(bytes, at, at + 8));
    Some((v, at + 8))
}

/// Read the framed byte string at `at`.
pub fn take_framed(bytes: &[u8], at: usize) -> (res: Option<(Vec<u8>, usize)>)
    ensures
        match res {
            Some((v, next)) => read_framed(bytes@, at as int) == Some((v@, next as int)),
            None => read_framed(bytes@, at as int) is None,
        },
{
    match take_u32(bytes, at) {
        None => None,
        Some((len, start)) => {
            if len as usize > bytes.len() - start {
                return None;
            }
            let end = start + len as usize;
            Some((slice_to_vec(slice_subrange(bytes, start, end)), end))
        },
    }
}

} // verus!
