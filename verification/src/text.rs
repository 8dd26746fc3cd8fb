//! Plain text for reports, as UTF-8 bytes: numerals and padded columns.

use crate::bytes::append_bytes;
use vstd::prelude::*;

verus! {

/// The ASCII digit for `d`: `0` to `9`, then `a` to `f`.
pub open spec fn digit(d: nat) -> u8 {
    if d < 10 {
        (48 + d) as u8
    } else {
        (87 + d) as u8
    }
}

/// `n` in decimal digits, without leading zeros.
pub open spec fn decimal(n: nat) -> Seq<u8>
    decreases n,
{
    if n < 10 {
        seq![digit(n)]
    } else {
        decimal(n / 10).push(digit(n % 10))
    }
}

/// `n` in lower-case hexadecimal digits, without leading zeros.
pub open spec fn hexadecimal(n: nat) -> Seq<u8>
    decreases n,
{
    if n < 16 {
        seq![digit(n)]
    } else {
        hexadecimal(n / 16).push(digit(n % 16))
    }
}

/// `n` in at least two decimal digits: with a leading zero below 10.
pub open spec fn two_digit_decimal(n: nat) -> Seq<u8> {
    if n < 10 {
        seq![48u8] + decimal(n)
    } else {
        decimal(n)
    }
}

/// `n` in at least two lower-case hexadecimal digits: with a leading zero
/// below 16.
pub open spec fn two_digit_hexadecimal(n: nat) -> Seq<u8> {
    if n < 16 {
        seq![48u8] + hexadecimal(n)
    } else {
        hexadecimal(n)
    }
}

/// `v` in decimal digits, with a minus sign where it is negative.
pub open spec fn signed_decimal(v: int) -> Seq<u8> {
    if v < 0 {
        seq![45u8] + decimal((-v) as nat)
    } else {
        decimal(v as nat)
    }
}

/// `b` is the first byte of a character's UTF-8 encoding.
pub open spec fn starts_char(b: u8) -> bool {
    b & 0xC0 != 0x80
}

/// The number of characters in UTF-8 text.
pub open spec fn char_count(text: Seq<u8>) -> nat
    decreases text.len(),
{
    if text.len() == 0 {
        0
    } else {
        char_count(text.drop_last()) + if starts_char(text.last()) {
            1nat
        } else {
            0nat
        }
    }
}

/// `n` spaces.
pub open spec fn spaces(n: nat) -> Seq<u8> {
    Seq::new(n, |i: int| 32u8)
}

/// The number of spaces that bring `text` to `width` characters.
pub open spec fn padding(text: Seq<u8>, width: nat) -> nat {
    if char_count(text) < width {
        (width - char_count(text)) as nat
    } else {
        0
    }
}

/// `text` in a column of `width` characters, flush left. Longer text is not
/// cut.
pub open spec fn left_aligned(text: Seq<u8>, width: nat) -> Seq<u8> {
    text + spaces(padding(text, width))
}

/// `text` in a column of `width` characters, flush right. Longer text is not
/// cut.
pub open spec fn right_aligned(text: Seq<u8>, width: nat) -> Seq<u8> {
    spaces(padding(text, width)) + text
}

/// Appends `n` in decimal digits.
pub fn push_decimal(out: &mut Vec<u8>, n: u64)
    ensures
        final(out)@ == old(out)@ + decimal(n as nat),
    decreases n,
{
    if n >= 10 {
        push_decimal(out, n / 10);
    }
    out.push(48 + (n % 10) as u8);
    assert(out@ =~= old(out)@ + decimal(n as nat));
}

/// Appends `n` in lower-case hexadecimal digits.
pub fn push_hexadecimal(out: &mut Vec<u8>, n: u64)
    ensures
        final(out)@ == old(out)@ + hexadecimal(n as nat),
    decreases n,
{
    if n >= 16 {
        push_hexadecimal(out, n / 16);
    }
    let d: u8 = (n % 16) as u8;
    out.push(
        if d < 10 {
            48 + d
        } else {
            87 + d
        },
    );
    assert(out@ =~= old(out)@ + hexadecimal(n as nat));
}

/// Appends `v` in decimal digits, with a minus sign where it is negative.
pub fn push_signed_decimal(out: &mut Vec<u8>, v: i64)
    ensures
        final(out)@ == old(out)@ + signed_decimal(v as int),
{
    if v < 0 {
        out.push(45);
        let magnitude: u64 = if v == i64::MIN {
            0x8000_0000_0000_0000
        } else {
            (-v) as u64
        };
        push_decimal(out, magnitude);
        assert(out@ =~= old(out)@ + signed_decimal(v as int));
    } else {
        push_decimal(out, v as u64);
    }
}

/// The number of characters in UTF-8 text.
pub fn count_chars(text: &[u8]) -> (n: usize)
    ensures
        n == char_count(text@),
{
    let mut n: usize = 0;
    let mut i: usize = 0;
    assert(text@.take(0) =~= Seq::<u8>::empty());
    while i < text.len()
        invariant
            i <= text@.len(),
            n <= i,
            n == char_count(text@.take(i as int)),
        decreases text@.len() - i,
    {
        assert(text@.take(i + 1).drop_last() =~= text@.take(i as int));
        if text[i] & 0xC0 != 0x80 {
            n += 1;
        }
        i += 1;
    }
    assert(text@.take(i as int) =~= text@);
    n
}

/// Appends `n` spaces.
pub fn push_spaces(out: &mut Vec<u8>, n: usize)
    ensures
        final(out)@ == old(out)@ + spaces(n as nat),
{
    let mut i: usize = 0;
    assert(out@ =~= old(out)@ + spaces(0));
    while i < n
        invariant
            i <= n,
            out@ == old(out)@ + spaces(i as nat),
        decreases n - i,
    {
        out.push(32);
        assert(out@ =~= old(out)@ + spaces((i + 1) as nat));
        i += 1;
    }
}

/// Appends `text` in a column of `width` characters, flush left.
pub fn push_left_aligned(out: &mut Vec<u8>, text: &[u8], width: usize)
    ensures
        final(out)@ == old(out)@ + left_aligned(text@, width as nat),
{
    let count = count_chars(text);
    append_bytes(out, text);
    if count < width {
        push_spaces(out, width - count);
    } else {
        assert(spaces(0) =~= Seq::<u8>::empty());
    }
    assert(out@ =~= old(out)@ + left_aligned(text@, width as nat));
}

/// Appends `text` in a column of `width` characters, flush right.
pub fn push_right_aligned(out: &mut Vec<u8>, text: &[u8], width: usize)
    ensures
        final(out)@ == old(out)@ + right_aligned(text@, width as nat),
{
    let count = count_chars(text);
    if count < width {
        push_spaces(out, width - count);
    } else {
        assert(spaces(0) =~= Seq::<u8>::empty());
    }
    append_bytes(out, text);
    assert(out@ =~= old(out)@ + right_aligned(text@, width as nat));
}

} // verus!
