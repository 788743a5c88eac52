//! Digits and the two ways bytes are written as text here: in decimal and
//! in lower-case hexadecimal.

use vstd::prelude::*;
use vstd::string::StringExecFns;

verus! {

/// The character of one digit below sixteen.
pub open spec fn digit_char(d: int) -> char {
    if d == 0 {
        '0'
    } else if d == 1 {
        '1'
    } else if d == 2 {
        '2'
    } else if d == 3 {
        '3'
    } else if d == 4 {
        '4'
    } else if d == 5 {
        '5'
    } else if d == 6 {
        '6'
    } else if d == 7 {
        '7'
    } else if d == 8 {
        '8'
    } else if d == 9 {
        '9'
    } else if d == 10 {
        'a'
    } else if d == 11 {
        'b'
    } else if d == 12 {
        'c'
    } else if d == 13 {
        'd'
    } else if d == 14 {
        'e'
    } else {
        'f'
    }
}

/// A byte written in decimal in three digits, with leading zeros.
pub open spec fn decimal(b: u8) -> Seq<char> {
    seq![digit_char(b as int / 100), digit_char(b as int / 10 % 10), digit_char(b as int % 10)]
}

/// Bytes written in hexadecimal, two lower-case digits each.
pub open spec fn hex(bytes: Seq<u8>) -> Seq<char>
    decreases bytes.len(),
{
    if bytes.len() == 0 {
        Seq::empty()
    } else {
        hex(bytes.drop_last()) + seq![
            digit_char(bytes.last() as int / 16),
            digit_char(bytes.last() as int % 16),
        ]
    }
}

/// Hexadecimal text is twice as long as the bytes.
pub proof fn lemma_hex_len(bytes: Seq<u8>)
    ensures
        hex(bytes).len() == 2 * bytes.len(),
    decreases bytes.len(),
{
    if bytes.len() > 0 {
        lemma_hex_len(bytes.drop_last());
    }
}

/// Hexadecimal text holds characters below 128 only.
pub proof fn lemma_hex_is_ascii(bytes: Seq<u8>)
    ensures
        vstd::utf8::is_ascii_chars(hex(bytes)),
    decreases bytes.len(),
{
    if bytes.len() > 0 {
        lemma_hex_is_ascii(bytes.drop_last());
        let init = hex(bytes.drop_last());
        assert forall|i: int| 0 <= i < hex(bytes).len() implies '\0' <= #[trigger] hex(bytes)[i]
            <= '\u{7f}' by {
            if i < init.len() {
                assert(hex(bytes)[i] == init[i]);
            }
        }
    }
}

/// The text of one digit.
pub fn digit_str(d: u8) -> (s: &'static str)
    requires
        d < 16,
    ensures
        s@ == seq![digit_char(d as int)],
{
    proof {
        reveal_strlit("0");
        reveal_strlit("1");
        reveal_strlit("2");
        reveal_strlit("3");
        reveal_strlit("4");
        reveal_strlit("5");
        reveal_strlit("6");
        reveal_strlit("7");
        reveal_strlit("8");
        reveal_strlit("9");
        reveal_strlit("a");
        reveal_strlit("b");
        reveal_strlit("c");
        reveal_strlit("d");
        reveal_strlit("e");
        reveal_strlit("f");
    }
    let s = if d == 0 {
        "0"
    } else if d == 1 {
        "1"
    } else if d == 2 {
        "2"
    } else if d == 3 {
        "3"
    } else if d == 4 {
        "4"
    } else if d == 5 {
        "5"
    } else if d == 6 {
        "6"
    } else if d == 7 {
        "7"
    } else if d == 8 {
        "8"
    } else if d == 9 {
        "9"
    } else if d == 10 {
        "a"
    } else if d == 11 {
        "b"
    } else if d == 12 {
        "c"
    } else if d == 13 {
        "d"
    } else if d == 14 {
        "e"
    } else {
        "f"
    };
    assert(s@ =~= seq![digit_char(d as int)]);
    s
}

/// Append `b` in three decimal digits to `out`.
pub fn push_decimal(out: &mut String, b: u8)
    ensures
        final(out)@ == old(out)@ + decimal(b),
{
    out.append(digit_str(b / 100));
    out.append(digit_str(b / 10 % 10));
    out.append(digit_str(b % 10));
    assert(out@ =~= old(out)@ + decimal(b));
}

/// Append `bytes` in hexadecimal to `out`.
pub fn push_hex(out: &mut String, bytes: &[u8])
    ensures
        final(out)@ == old(out)@ + hex(bytes@),
{
    let mut i: usize = 0;
    assert(out@ =~= old(out)@ + hex(bytes@.take(0)));
    while i < bytes.len()
        invariant
            i <= bytes@.len(),
            out@ == old(out)@ + hex(bytes@.take(i as int)),
        decreases bytes@.len() - i,
    {
        let b = bytes[i];
        let ghost before = out@;
        out.append(digit_str(b / 16));
        out.append(digit_str(b % 16));
        proof {
            assert(bytes@.take(i + 1).drop_last() =~= bytes@.take(i as int));
            assert(bytes@.take(i + 1).last() == b);
            assert(out@ =~= old(out)@ + hex(bytes@.take(i + 1)));
        }
        i += 1;
    }
    assert(bytes@.take(i as int) =~= bytes@);
}

} // verus!
