//! The core registers of an ARM Cortex-M, by index and by name.

use crate::text::{decimal_text, push_decimal};
use vstd::prelude::*;
use vstd::string::{StrSliceExecFns, StringExecFns};

verus! {

pub const R0: u32 = 0x00;

pub const R1: u32 = 0x01;

pub const R2: u32 = 0x02;

pub const R3: u32 = 0x03;

pub const R4: u32 = 0x04;

pub const R5: u32 = 0x05;

pub const R6: u32 = 0x06;

pub const R7: u32 = 0x07;

pub const R8: u32 = 0x08;

pub const R9: u32 = 0x09;

pub const R10: u32 = 0x0a;

pub const R11: u32 = 0x0b;

pub const R12: u32 = 0x0c;

/// Stack pointer (R13).
pub const SP: u32 = 0x0d;

/// Link register (R14).
pub const LR: u32 = 0x0e;

/// Program counter (R15).
pub const PC: u32 = 0x0f;

/// Program status register.
pub const XPSR: u32 = 0x10;

/// The highest register index.
pub const LAST_REGISTER: u32 = 0x10;

/// The display name of a register index.
pub open spec fn register_name_text(reg_index: u32) -> Seq<char> {
    if reg_index == 0x00 {
        "R0"@
    } else if reg_index == 0x01 {
        "R1"@
    } else if reg_index == 0x02 {
        "R2"@
    } else if reg_index == 0x03 {
        "R3"@
    } else if reg_index == 0x04 {
        "R4"@
    } else if reg_index == 0x05 {
        "R5"@
    } else if reg_index == 0x06 {
        "R6"@
    } else if reg_index == 0x07 {
        "R7"@
    } else if reg_index == 0x08 {
        "R8"@
    } else if reg_index == 0x09 {
        "R9"@
    } else if reg_index == 0x0a {
        "R10"@
    } else if reg_index == 0x0b {
        "R11"@
    } else if reg_index == 0x0c {
        "R12"@
    } else if reg_index == 0x0d {
        "SP"@
    } else if reg_index == 0x0e {
        "LR"@
    } else if reg_index == 0x0f {
        "PC"@
    } else if reg_index == 0x10 {
        "XPSR"@
    } else {
        "UNKNOWN"@
    }
}

/// The display name of a register index: `R0` to `R12`, `SP`, `LR`, `PC`
/// and `XPSR`, and `UNKNOWN` for every other index.
pub fn get_register_name(reg_index: u32) -> (name: &'static str)
    ensures
        name@ == register_name_text(reg_index),
{
    match reg_index {
        0x00 => "R0",
        0x01 => "R1",
        0x02 => "R2",
        0x03 => "R3",
        0x04 => "R4",
        0x05 => "R5",
        0x06 => "R6",
        0x07 => "R7",
        0x08 => "R8",
        0x09 => "R9",
        0x0a => "R10",
        0x0b => "R11",
        0x0c => "R12",
        0x0d => "SP",
        0x0e => "LR",
        0x0f => "PC",
        0x10 => "XPSR",
        _ => "UNKNOWN",
    }
}

/// Why a text is no number or no register.
#[derive(Clone, Copy, Debug, PartialEq, Eq, Structural)]
pub enum NumberError {
    /// The text is empty.
    Empty,
    /// The text holds something that is no digit, or a plus sign and
    /// nothing behind it.
    InvalidDigit,
    /// The number does not fit 32 bits.
    Overflow,
}

/// The value of a digit in the given radix, which is ten or sixteen.
pub open spec fn digit_value(c: char, radix: nat) -> Option<nat> {
    if c == '0' {
        Some(0)
    } else if c == '1' {
        Some(1)
    } else if c == '2' {
        Some(2)
    } else if c == '3' {
        Some(3)
    } else if c == '4' {
        Some(4)
    } else if c == '5' {
        Some(5)
    } else if c == '6' {
        Some(6)
    } else if c == '7' {
        Some(7)
    } else if c == '8' {
        Some(8)
    } else if c == '9' {
        Some(9)
    } else if radix != 16 {
        None
    } else if c == 'a' || c == 'A' {
        Some(10)
    } else if c == 'b' || c == 'B' {
        Some(11)
    } else if c == 'c' || c == 'C' {
        Some(12)
    } else if c == 'd' || c == 'D' {
        Some(13)
    } else if c == 'e' || c == 'E' {
        Some(14)
    } else if c == 'f' || c == 'F' {
        Some(15)
    } else {
        None
    }
}

/// Whether every character of a text is a digit of the radix.
pub open spec fn all_digits(text: Seq<char>, radix: nat) -> bool {
    forall|i: int| 0 <= i < text.len() ==> digit_value(#[trigger] text[i], radix) is Some
}

/// The value of a text of digits, most significant digit first.
pub open spec fn digits_value(text: Seq<char>, radix: nat) -> nat
    decreases text.len(),
{
    if text.len() == 0 {
        0
    } else {
        digits_value(text.drop_last(), radix) * radix + digit_value(text.last(), radix).unwrap_or(
            0,
        )
    }
}

/// A text without one leading plus sign.
pub open spec fn unsigned_part(text: Seq<char>) -> Seq<char> {
    if text.len() > 0 && text[0] == '+' {
        text.skip(1)
    } else {
        text
    }
}

/// The 32-bit number that a text denotes in the radix: an optional plus
/// sign and then one or more digits, whose value fits 32 bits.
pub open spec fn number_value(text: Seq<char>, radix: nat) -> Result<u32, NumberError> {
    let digits = unsigned_part(text);
    if text.len() == 0 {
        Err(NumberError::Empty)
    } else if digits.len() == 0 || !all_digits(digits, radix) {
        Err(NumberError::InvalidDigit)
    } else if digits_value(digits, radix) > u32::MAX {
        Err(NumberError::Overflow)
    } else {
        Ok(digits_value(digits, radix) as u32)
    }
}

/// Whether a text starts with `0x` or `0X`.
pub open spec fn has_hex_prefix(text: Seq<char>) -> bool {
    text.len() >= 2 && text[0] == '0' && (text[1] == 'x' || text[1] == 'X')
}

/// The number that a command-line argument denotes: hexadecimal behind a
/// prefix of `0x` or `0X`, decimal otherwise.
pub open spec fn hex_argument_value(text: Seq<char>) -> Result<u32, NumberError> {
    if has_hex_prefix(text) {
        number_value(text.skip(2), 16)
    } else {
        number_value(text, 10)
    }
}

/// Whether a text is `lower` up to the case of its letters, where `upper`
/// is `lower` in capitals.
pub open spec fn same_ignoring_case(text: Seq<char>, lower: Seq<char>, upper: Seq<char>) -> bool {
    &&& text.len() == lower.len()
    &&& forall|i: int| 0 <= i < text.len() ==> text[i] == lower[i] || text[i] == upper[i]
}

/// The register that a name denotes, whatever the case of its letters:
/// `r0` to `r15`, `sp`, `lr`, `pc`, `xpsr` and `psr`.
pub open spec fn named_register(text: Seq<char>) -> Option<u32> {
    if same_ignoring_case(text, "r0"@, "R0"@) {
        Some(R0)
    } else if same_ignoring_case(text, "r1"@, "R1"@) {
        Some(R1)
    } else if same_ignoring_case(text, "r2"@, "R2"@) {
        Some(R2)
    } else if same_ignoring_case(text, "r3"@, "R3"@) {
        Some(R3)
    } else if same_ignoring_case(text, "r4"@, "R4"@) {
        Some(R4)
    } else if same_ignoring_case(text, "r5"@, "R5"@) {
        Some(R5)
    } else if same_ignoring_case(text, "r6"@, "R6"@) {
        Some(R6)
    } else if same_ignoring_case(text, "r7"@, "R7"@) {
        Some(R7)
    } else if same_ignoring_case(text, "r8"@, "R8"@) {
        Some(R8)
    } else if same_ignoring_case(text, "r9"@, "R9"@) {
        Some(R9)
    } else if same_ignoring_case(text, "r10"@, "R10"@) {
        Some(R10)
    } else if same_ignoring_case(text, "r11"@, "R11"@) {
        Some(R11)
    } else if same_ignoring_case(text, "r12"@, "R12"@) {
        Some(R12)
    } else if same_ignoring_case(text, "r13"@, "R13"@) || same_ignoring_case(
        text,
        "sp"@,
        "SP"@,
    ) {
        Some(SP)
    } else if same_ignoring_case(text, "r14"@, "R14"@) || same_ignoring_case(
        text,
        "lr"@,
        "LR"@,
    ) {
        Some(LR)
    } else if same_ignoring_case(text, "r15"@, "R15"@) || same_ignoring_case(
        text,
        "pc"@,
        "PC"@,
    ) {
        Some(PC)
    } else if same_ignoring_case(text, "xpsr"@, "XPSR"@) || same_ignoring_case(
        text,
        "psr"@,
        "PSR"@,
    ) {
        Some(XPSR)
    } else {
        None
    }
}

/// The message for a register index beyond the last register.
pub open spec fn out_of_range_text(index: u32) -> Seq<char> {
    "Register index "@ + decimal_text(index as nat) + " out of range (0-16)"@
}

/// The message for a text that names no register.
pub open spec fn unknown_register_text(text: Seq<char>) -> Seq<char> {
    "Unknown register: "@ + text
}

/// The register that a command-line argument denotes: a register name, or
/// else a decimal index up to sixteen.
pub open spec fn register_argument(text: Seq<char>) -> Result<u32, Seq<char>> {
    match named_register(text) {
        Some(index) => Ok(index),
        None => match number_value(text, 10) {
            Ok(index) => if index <= LAST_REGISTER {
                Ok(index)
            } else {
                Err(out_of_range_text(index))
            },
            Err(_) => Err(unknown_register_text(text)),
        },
    }
}

fn digit_of(c: char, radix: u32) -> (d: Option<u32>)
    requires
        radix == 10 || radix == 16,
    ensures
        match digit_value(c, radix as nat) {
            Some(v) => d == Some(v as u32) && v < radix,
            None => d is None,
        },
{
    if c == '0' {
        Some(0)
    } else if c == '1' {
        Some(1)
    } else if c == '2' {
        Some(2)
    } else if c == '3' {
        Some(3)
    } else if c == '4' {
        Some(4)
    } else if c == '5' {
        Some(5)
    } else if c == '6' {
        Some(6)
    } else if c == '7' {
        Some(7)
    } else if c == '8' {
        Some(8)
    } else if c == '9' {
        Some(9)
    } else if radix != 16 {
        None
    } else if c == 'a' || c == 'A' {
        Some(10)
    } else if c == 'b' || c == 'B' {
        Some(11)
    } else if c == 'c' || c == 'C' {
        Some(12)
    } else if c == 'd' || c == 'D' {
        Some(13)
    } else if c == 'e' || c == 'E' {
        Some(14)
    } else if c == 'f' || c == 'F' {
        Some(15)
    } else {
        None
    }
}

/// The 32-bit number that the characters of `text` from `start` on denote
/// in the radix.
fn parse_number_from(text: &str, start: usize, radix: u32) -> (r: Result<u32, NumberError>)
    requires
        radix == 10 || radix == 16,
        start <= text@.len(),
    ensures
        r == number_value(text@.skip(start as int), radix as nat),
{
    let len = text.unicode_len();
    let ghost whole = text@.skip(start as int);
    if start == len {
        return Err(NumberError::Empty);
    }
    let mut first: usize = start;
    if text.get_char(first) == '+' {
        first = first + 1;
    }
    let ghost digits = unsigned_part(whole);
    assert(digits =~= text@.skip(first as int));
    if first == len {
        return Err(NumberError::InvalidDigit);
    }
    let mut value: u64 = 0;
    let mut overflow = false;
    let mut i: usize = first;
    assert(digits.take(0) =~= Seq::<char>::empty());
    while i < len
        invariant
            first <= i <= len,
            len == text@.len(),
            radix == 10 || radix == 16,
            digits == text@.skip(first as int),
            digits == unsigned_part(text@.skip(start as int)),
            all_digits(digits.take(i - first), radix as nat),
            !overflow ==> value == digits_value(digits.take(i - first), radix as nat) && value
                <= u32::MAX,
            overflow ==> digits_value(digits.take(i - first), radix as nat) > u32::MAX,
        decreases len - i,
    {
        let c = text.get_char(i);
        let ghost shorter = digits.take(i - first);
        let ghost longer = digits.take(i - first + 1);
        proof {
            assert(longer.drop_last() =~= shorter);
            assert(longer.last() == c);
        }
        match digit_of(c, radix) {
            None => {
                assert(digits[i - first] == c);
                assert(!all_digits(digits, radix as nat));
                return Err(NumberError::InvalidDigit);
            },
            Some(d) => {
                assert forall|k: int| 0 <= k < longer.len() implies digit_value(
                    #[trigger] longer[k],
                    radix as nat,
                ) is Some by {
                    if k < shorter.len() {
                        assert(longer[k] == shorter[k]);
                    }
                }
                if !overflow {
                    value = value * radix as u64 + d as u64;
                    if value > u32::MAX as u64 {
                        overflow = true;
                    }
                } else {
                    proof {
                        let v = digits_value(shorter, radix as nat);
                        assert(v * radix as nat >= v) by (nonlinear_arith)
                            requires
                                radix >= 1,
                                v >= 0,
                        ;
                    }
                }
            },
        }
        i = i + 1;
    }
    proof {
        assert(digits.take(len - first) =~= digits);
    }
    if overflow {
        Err(NumberError::Overflow)
    } else {
        Ok(value as u32)
    }
}

/// The number that a command-line argument denotes: hexadecimal behind a
/// prefix of `0x` or `0X`, decimal otherwise; with an optional plus sign
/// before the digits.
pub fn parse_hex(s: &str) -> (r: Result<u32, NumberError>)
    ensures
        r == hex_argument_value(s@),
{
    let len = s.unicode_len();
    if len >= 2 && s.get_char(0) == '0' && (s.get_char(1) == 'x' || s.get_char(1) == 'X') {
        parse_number_from(s, 2, 16)
    } else {
        assert(s@.skip(0) =~= s@);
        parse_number_from(s, 0, 10)
    }
}

fn eq_ignoring_case(text: &str, lower: &str, upper: &str) -> (same: bool)
    requires
        lower@.len() == upper@.len(),
    ensures
        same == same_ignoring_case(text@, lower@, upper@),
{
    let len = text.unicode_len();
    if len != lower.unicode_len() {
        return false;
    }
    let mut i: usize = 0;
    while i < len
        invariant
            i <= len,
            len == text@.len(),
            len == lower@.len(),
            len == upper@.len(),
            forall|k: int| 0 <= k < i ==> text@[k] == lower@[k] || text@[k] == upper@[k],
        decreases len - i,
    {
        let c = text.get_char(i);
        if c != lower.get_char(i) && c != upper.get_char(i) {
            return false;
        }
        i = i + 1;
    }
    true
}

fn named(text: &str, lower: &str, upper: &str) -> (same: bool)
    ensures
        lower@.len() == upper@.len() ==> same == same_ignoring_case(text@, lower@, upper@),
        lower@.len() != upper@.len() ==> !same,
{
    if lower.unicode_len() != upper.unicode_len() {
        return false;
    }
    eq_ignoring_case(text, lower, upper)
}

/// The register that a name denotes, whatever the case of its letters.
pub fn register_by_name(text: &str) -> (r: Option<u32>)
    ensures
        r == named_register(text@),
{
    proof {
        reveal_strlit("r0");
        reveal_strlit("R0");
        reveal_strlit("r1");
        reveal_strlit("R1");
        reveal_strlit("r2");
        reveal_strlit("R2");
        reveal_strlit("r3");
        reveal_strlit("R3");
        reveal_strlit("r4");
        reveal_strlit("R4");
        reveal_strlit("r5");
        reveal_strlit("R5");
        reveal_strlit("r6");
        reveal_strlit("R6");
        reveal_strlit("r7");
        reveal_strlit("R7");
        reveal_strlit("r8");
        reveal_strlit("R8");
        reveal_strlit("r9");
        reveal_strlit("R9");
        reveal_strlit("r10");
        reveal_strlit("R10");
        reveal_strlit("r11");
        reveal_strlit("R11");
        reveal_strlit("r12");
        reveal_strlit("R12");
        reveal_strlit("r13");
        reveal_strlit("R13");
        reveal_strlit("r14");
        reveal_strlit("R14");
        reveal_strlit("r15");
        reveal_strlit("R15");
        reveal_strlit("sp");
        reveal_strlit("SP");
        reveal_strlit("lr");
        reveal_strlit("LR");
        reveal_strlit("pc");
        reveal_strlit("PC");
        reveal_strlit("xpsr");
        reveal_strlit("XPSR");
        reveal_strlit("psr");
        reveal_strlit("PSR");
    }
    if named(text, "r0", "R0") {
        Some(R0)
    } else if named(text, "r1", "R1") {
        Some(R1)
    } else if named(text, "r2", "R2") {
        Some(R2)
    } else if named(text, "r3", "R3") {
        Some(R3)
    } else if named(text, "r4", "R4") {
        Some(R4)
    } else if named(text, "r5", "R5") {
        Some(R5)
    } else if named(text, "r6", "R6") {
        Some(R6)
    } else if named(text, "r7", "R7") {
        Some(R7)
    } else if named(text, "r8", "R8") {
        Some(R8)
    } else if named(text, "r9", "R9") {
        Some(R9)
    } else if named(text, "r10", "R10") {
        Some(R10)
    } else if named(text, "r11", "R11") {
        Some(R11)
    } else if named(text, "r12", "R12") {
        Some(R12)
    } else if named(text, "r13", "R13") || named(text, "sp", "SP") {
        Some(SP)
    } else if named(text, "r14", "R14") || named(text, "lr", "LR") {
        Some(LR)
    } else if named(text, "r15", "R15") || named(text, "pc", "PC") {
        Some(PC)
    } else if named(text, "xpsr", "XPSR") || named(text, "psr", "PSR") {
        Some(XPSR)
    } else {
        None
    }
}

/// The register that a command-line argument denotes: a register name in
/// any case, or else a decimal index from 0 to 16. Anything else is refused
/// with a message.
pub fn parse_register_name(reg_name: &str) -> (r: Result<u32, String>)
    ensures
        match register_argument(reg_name@) {
            Ok(index) => r == Ok::<u32, String>(index),
            Err(message) => r is Err && r->Err_0@ == message,
        },
{
    if let Some(index) = register_by_name(reg_name) {
        return Ok(index);
    }
    assert(reg_name@.skip(0) =~= reg_name@);
    match parse_number_from(reg_name, 0, 10) {
        Ok(index) => {
            if index <= LAST_REGISTER {
                Ok(index)
            } else {
                let mut message = String::from_str("Register index ");
                push_decimal(&mut message, index as u64);
                message.append(" out of range (0-16)");
                Err(message)
            }
        },
        Err(_) => {
            let mut message = String::from_str("Unknown register: ");
            message.append(reg_name);
            Err(message)
        },
    }
}


} // verus!
