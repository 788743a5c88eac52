//! Integers written with the high byte first, at a fixed width or with as few
//! bytes as they need.

use vstd::prelude::*;

verus! {

/// 256 to the power `width`.
pub open spec fn pow256(width: nat) -> nat
    decreases width,
{
    if width == 0 {
        1
    } else {
        256 * pow256((width - 1) as nat)
    }
}

/// The integer that the bytes stand for, high byte first.
pub open spec fn be_value(bytes: Seq<u8>) -> nat
    decreases bytes.len(),
{
    if bytes.len() == 0 {
        0
    } else {
        be_value(bytes.drop_last()) * 256 + bytes.last() as nat
    }
}

/// The integer in exactly `width` bytes, high byte first.
pub open spec fn be_fixed(value: nat, width: nat) -> Seq<u8>
    decreases width,
{
    if width == 0 {
        Seq::empty()
    } else {
        be_fixed(value / 256, (width - 1) as nat).push((value % 256) as u8)
    }
}

/// The integer in as few bytes as it needs, high byte first; zero needs none.
pub open spec fn be_min(value: nat) -> Seq<u8>
    decreases value,
{
    if value == 0 {
        Seq::empty()
    } else {
        be_min(value / 256).push((value % 256) as u8)
    }
}

/// Powers of 256 that the widths in use need.
pub proof fn lemma_pow256()
    ensures
        pow256(0) == 1,
        pow256(1) == 0x100,
        pow256(8) == 0x1_0000_0000_0000_0000,
        pow256(16) == 0x1_0000_0000_0000_0000_0000_0000_0000_0000,
{
    reveal_with_fuel(pow256, 17);
}

/// Bytes stand for an integer below 256 to the power of their number.
pub proof fn lemma_be_value_bound(bytes: Seq<u8>)
    ensures
        be_value(bytes) < pow256(bytes.len()),
    decreases bytes.len(),
{
    if bytes.len() > 0 {
        lemma_be_value_bound(bytes.drop_last());
    }
}

/// An integer that fits the width is read back from its bytes, and bytes are
/// written back from their integer.
pub proof fn lemma_be_fixed(value: nat, width: nat)
    ensures
        be_fixed(value, width).len() == width,
        value < pow256(width) ==> be_value(be_fixed(value, width)) == value,
    decreases width,
{
    if width > 0 {
        lemma_be_fixed(value / 256, (width - 1) as nat);
        let bytes = be_fixed(value, width);
        assert(bytes.drop_last() =~= be_fixed(value / 256, (width - 1) as nat));
    }
}

/// Bytes are the fixed-width writing of their integer.
pub proof fn lemma_be_fixed_of_value(bytes: Seq<u8>)
    ensures
        be_fixed(be_value(bytes), bytes.len()) == bytes,
    decreases bytes.len(),
{
    if bytes.len() > 0 {
        lemma_be_fixed_of_value(bytes.drop_last());
        assert(be_fixed(be_value(bytes), bytes.len()) =~= bytes);
    }
}

/// The shortest writing of an integer starts with a byte that is not zero and
/// is read back as the integer; it has at most `width` bytes where the
/// integer is below 256 to the power `width`.
pub proof fn lemma_be_min(value: nat, width: nat)
    ensures
        be_value(be_min(value)) == value,
        value > 0 ==> be_min(value).len() > 0 && be_min(value)[0] != 0,
        value < pow256(width) ==> be_min(value).len() <= width,
        value >= 256 ==> be_min(value).len() >= 2,
    decreases value,
{
    if value > 0 {
        let width1 = if width > 0 { (width - 1) as nat } else { 0 };
        lemma_be_min(value / 256, width1);
        let bytes = be_min(value);
        assert(bytes.drop_last() =~= be_min(value / 256));
        if value / 256 > 0 {
            assert(bytes[0] == be_min(value / 256)[0]);
        }
    }
}

/// Bytes that do not start with zero are the shortest writing of their
/// integer.
pub proof fn lemma_be_min_of_value(bytes: Seq<u8>)
    requires
        bytes.len() > 0 ==> bytes[0] != 0,
    ensures
        be_min(be_value(bytes)) == bytes,
        bytes.len() > 0 ==> be_value(bytes) > 0,
    decreases bytes.len(),
{
    if bytes.len() > 0 {
        let init = bytes.drop_last();
        if init.len() > 0 {
            assert(init[0] == bytes[0]);
        }
        lemma_be_min_of_value(init);
        assert(be_min(be_value(bytes)) =~= bytes);
    }
}

/// Read the integer that `bytes` hold from `at` up to `end`, at most eight
/// bytes.
pub fn take_be_u64(bytes: &[u8], at: usize, end: usize) -> (value: u64)
    requires
        at <= end <= bytes@.len(),
        end - at <= 8,
    ensures
        value == be_value(bytes@.subrange(at as int, end as int)),
{
    let mut value: u64 = 0;
    let mut i: usize = at;
    assert(bytes@.subrange(at as int, at as int) =~= Seq::<u8>::empty());
    while i < end
        invariant
            at <= i <= end <= bytes@.len(),
            end - at <= 8,
            value == be_value(bytes@.subrange(at as int, i as int)),
        decreases end - i,
    {
        proof {
            let done = bytes@.subrange(at as int, i as int);
            let more = bytes@.subrange(at as int, i + 1);
            assert(more.drop_last() =~= done);
            lemma_be_value_bound(done);
            lemma_be_value_bound(more);
            lemma_pow256_le((i + 1 - at) as nat, 8);
            lemma_pow256();
        }
        value = value * 256 + bytes[i] as u64;
        i += 1;
    }
    value
}

/// Read the integer that `bytes` hold from `at` up to `end`, at most sixteen
/// bytes.
pub fn take_be_u128(bytes: &[u8], at: usize, end: usize) -> (value: u128)
    requires
        at <= end <= bytes@.len(),
        end - at <= 16,
    ensures
        value == be_value(bytes@.subrange(at as int, end as int)),
{
    let mut value: u128 = 0;
    let mut i: usize = at;
    assert(bytes@.subrange(at as int, at as int) =~= Seq::<u8>::empty());
    while i < end
        invariant
            at <= i <= end <= bytes@.len(),
            end - at <= 16,
            value == be_value(bytes@.subrange(at as int, i as int)),
        decreases end - i,
    {
        proof {
            let done = bytes@.subrange(at as int, i as int);
            let more = bytes@.subrange(at as int, i + 1);
            assert(more.drop_last() =~= done);
            lemma_be_value_bound(done);
            lemma_be_value_bound(more);
            lemma_pow256_le((i + 1 - at) as nat, 16);
            lemma_pow256();
        }
        value = value * 256 + bytes[i] as u128;
        i += 1;
    }
    value
}

/// Powers of 256 grow with the width.
pub proof fn lemma_pow256_le(a: nat, b: nat)
    requires
        a <= b,
    ensures
        pow256(a) <= pow256(b),
    decreases b,
{
    if a < b {
        lemma_pow256_le(a, (b - 1) as nat);
    }
}

} // verus!
