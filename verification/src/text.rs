//! Number formatting for error messages and reports: upper-case hexadecimal
//! of fixed width and plain decimal.

use vstd::prelude::*;
use vstd::string::StringExecFns;

verus! {

/// The character of a digit below sixteen, in upper case.
pub open spec fn digit_char(n: int) -> char {
    seq!['0', '1', '2', '3', '4', '5', '6', '7', '8', '9', 'A', 'B', 'C', 'D', 'E', 'F'][n]
}

/// A byte as two upper-case hexadecimal digits.
pub open spec fn hex2_text(x: u8) -> Seq<char> {
    seq![digit_char(((x >> 4) & 0xf) as int), digit_char((x & 0xf) as int)]
}

/// A 32-bit value as eight upper-case hexadecimal digits.
pub open spec fn hex8_text(x: u32) -> Seq<char> {
    seq![
        digit_char(((x >> 28) & 0xf) as int),
        digit_char(((x >> 24) & 0xf) as int),
        digit_char(((x >> 20) & 0xf) as int),
        digit_char(((x >> 16) & 0xf) as int),
        digit_char(((x >> 12) & 0xf) as int),
        digit_char(((x >> 8) & 0xf) as int),
        digit_char(((x >> 4) & 0xf) as int),
        digit_char((x & 0xf) as int),
    ]
}

/// A natural number in decimal, without leading zeros.
pub open spec fn decimal_text(n: nat) -> Seq<char>
    decreases n,
{
    if n < 10 {
        seq![digit_char(n as int)]
    } else {
        decimal_text(n / 10).push(digit_char((n % 10) as int))
    }
}

/// The one-character text of a digit below sixteen.
fn digit_str(n: u32) -> (s: &'static str)
    requires
        n < 16,
    ensures
        s@ == seq![digit_char(n as int)],
{
    proof {
        reveal_strlit("0");
        reveal_strlit("1");
        reveal_strlit("2");
        reveal_strlit("3");
        reveal_strlit("4");
        reveal_strlit("5");
        reveal_strlit("6");
        reveal_strlit("7");
        reveal_strlit("8");
        reveal_strlit("9");
        reveal_strlit("A");
        reveal_strlit("B");
        reveal_strlit("C");
        reveal_strlit("D");
        reveal_strlit("E");
        reveal_strlit("F");
    }
    let s = if n == 0 {
        "0"
    } else if n == 1 {
        "1"
    } else if n == 2 {
        "2"
    } else if n == 3 {
        "3"
    } else if n == 4 {
        "4"
    } else if n == 5 {
        "5"
    } else if n == 6 {
        "6"
    } else if n == 7 {
        "7"
    } else if n == 8 {
        "8"
    } else if n == 9 {
        "9"
    } else if n == 10 {
        "A"
    } else if n == 11 {
        "B"
    } else if n == 12 {
        "C"
    } else if n == 13 {
        "D"
    } else if n == 14 {
        "E"
    } else {
        "F"
    };
    assert(s@ =~= seq![digit_char(n as int)]);
    s
}

fn nibble(x: u32, shift: u32) -> (n: u32)
    requires
        shift < 32,
    ensures
        n == (x >> shift) & 0xf,
        n < 16,
{
    let n = (x >> shift) & 0xf;
    assert((x >> shift) & 0xf < 16) by (bit_vector);
    n
}

/// Appends a 32-bit value as eight upper-case hexadecimal digits.
pub fn push_hex8(out: &mut String, x: u32)
    ensures
        final(out)@ == old(out)@ + hex8_text(x),
{
    out.append(digit_str(nibble(x, 28)));
    out.append(digit_str(nibble(x, 24)));
    out.append(digit_str(nibble(x, 20)));
    out.append(digit_str(nibble(x, 16)));
    out.append(digit_str(nibble(x, 12)));
    out.append(digit_str(nibble(x, 8)));
    out.append(digit_str(nibble(x, 4)));
    let last = x & 0xf;
    assert(x & 0xf < 16) by (bit_vector);
    out.append(digit_str(last));
    assert(out@ =~= old(out)@ + hex8_text(x));
}

/// Appends a byte as two upper-case hexadecimal digits.
pub fn push_hex2(out: &mut String, x: u8)
    ensures
        final(out)@ == old(out)@ + hex2_text(x),
{
    let high = (x >> 4) & 0xf;
    let low = x & 0xf;
    assert((x >> 4) & 0xf < 16 && x & 0xf < 16) by (bit_vector);
    out.append(digit_str(high as u32));
    out.append(digit_str(low as u32));
    assert(out@ =~= old(out)@ + hex2_text(x));
}

/// Appends a number in decimal.
pub fn push_decimal(out: &mut String, n: u64)
    ensures
        final(out)@ == old(out)@ + decimal_text(n as nat),
    decreases n,
{
    if n < 10 {
        out.append(digit_str(n as u32));
        assert(out@ =~= old(out)@ + decimal_text(n as nat));
    } else {
        push_decimal(out, n / 10);
        out.append(digit_str((n % 10) as u32));
        assert(out@ =~= old(out)@ + decimal_text(n as nat));
    }
}

} // verus!
