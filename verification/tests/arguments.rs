use swd_debugger::registers::{parse_hex, parse_register_name, register_by_name, NumberError};

/// The same decision made with the standard library's conversions.
fn by_the_standard_library(reg_name: &str) -> Result<u32, String> {
    match reg_name.to_lowercase().as_str() {
        "r0" => Ok(0),
        "r1" => Ok(1),
        "r2" => Ok(2),
        "r3" => Ok(3),
        "r4" => Ok(4),
        "r5" => Ok(5),
        "r6" => Ok(6),
        "r7" => Ok(7),
        "r8" => Ok(8),
        "r9" => Ok(9),
        "r10" => Ok(10),
        "r11" => Ok(11),
        "r12" => Ok(12),
        "r13" | "sp" => Ok(13),
        "r14" | "lr" => Ok(14),
        "r15" | "pc" => Ok(15),
        "xpsr" | "psr" => Ok(16),
        _ => match reg_name.parse::<u32>() {
            Ok(index) if index <= 16 => Ok(index),
            Ok(index) => Err(format!("Register index {} out of range (0-16)", index)),
            Err(_) => Err(format!("Unknown register: {}", reg_name)),
        },
    }
}

fn hex_by_the_standard_library(s: &str) -> Option<u32> {
    if s.starts_with("0x") || s.starts_with("0X") {
        u32::from_str_radix(&s[2..], 16).ok()
    } else {
        s.parse::<u32>().ok()
    }
}

#[test]
fn hexadecimal_arguments() {
    assert_eq!(parse_hex("0x20000000"), Ok(0x2000_0000));
    assert_eq!(parse_hex("0XfF"), Ok(255));
    assert_eq!(parse_hex("0xDeadBeef"), Ok(0xdead_beef));
    assert_eq!(parse_hex("0xffffffff"), Ok(u32::MAX));
    assert_eq!(parse_hex("0x0"), Ok(0));
    assert_eq!(parse_hex("0x+1f"), Ok(0x1f));
}

#[test]
fn decimal_arguments() {
    assert_eq!(parse_hex("0"), Ok(0));
    assert_eq!(parse_hex("42"), Ok(42));
    assert_eq!(parse_hex("+7"), Ok(7));
    assert_eq!(parse_hex("0012"), Ok(12));
    assert_eq!(parse_hex("4294967295"), Ok(u32::MAX));
}

#[test]
fn arguments_that_are_no_numbers() {
    assert_eq!(parse_hex(""), Err(NumberError::Empty));
    assert_eq!(parse_hex("+"), Err(NumberError::InvalidDigit));
    assert_eq!(parse_hex("0x+"), Err(NumberError::InvalidDigit));
    assert_eq!(parse_hex("0x"), Err(NumberError::Empty));
    assert_eq!(parse_hex("12a"), Err(NumberError::InvalidDigit));
    assert_eq!(parse_hex("ff"), Err(NumberError::InvalidDigit));
    assert_eq!(parse_hex("-1"), Err(NumberError::InvalidDigit));
    assert_eq!(parse_hex(" 5"), Err(NumberError::InvalidDigit));
    assert_eq!(parse_hex("0xg"), Err(NumberError::InvalidDigit));
    assert_eq!(parse_hex("1_000"), Err(NumberError::InvalidDigit));
    assert_eq!(parse_hex("4294967296"), Err(NumberError::Overflow));
    assert_eq!(parse_hex("0x100000000"), Err(NumberError::Overflow));
    assert_eq!(parse_hex("99999999999999999999999999"), Err(NumberError::Overflow));
}

#[test]
fn numbers_agree_with_the_standard_library() {
    let samples = [
        "", "0", "7", "+7", "++7", "-7", "0x", "0X", "0x0", "0x10", "0X10", "0xx1", "x10", "10x",
        "4294967295", "4294967296", "0xFFFFFFFF", "0x1FFFFFFFF", "0x+a", "0x-a", "٣", "0x٣",
        "1 2", "12 ", "\u{ff11}", "00000000000000000001", "0x00000000000000000001", "abc",
    ];
    for sample in samples {
        assert_eq!(parse_hex(sample).ok(), hex_by_the_standard_library(sample));
    }
}

fn kind_by_the_standard_library(s: &str) -> Result<u32, NumberError> {
    let parsed = if s.starts_with("0x") || s.starts_with("0X") {
        u32::from_str_radix(&s[2..], 16)
    } else {
        s.parse::<u32>()
    };
    parsed.map_err(|e| match e.kind() {
        std::num::IntErrorKind::Empty => NumberError::Empty,
        std::num::IntErrorKind::PosOverflow => NumberError::Overflow,
        _ => NumberError::InvalidDigit,
    })
}

#[test]
fn error_kinds_agree_with_the_standard_library() {
    let samples = [
        "", "+", "-", "0x", "0X", "0x+", "0x-", "++1", "+-1", "1+", "12a", "a12", "0xg1", " 1",
        "1 ", "4294967296", "0x100000000", "+4294967296", "99999999999999999999", "7", "+7",
        "0x7", "٣", "-0",
    ];
    for sample in samples {
        assert_eq!(parse_hex(sample), kind_by_the_standard_library(sample));
    }
}

#[test]
fn registers_by_name_in_any_case() {
    assert_eq!(parse_register_name("r0"), Ok(0));
    assert_eq!(parse_register_name("R7"), Ok(7));
    assert_eq!(parse_register_name("r12"), Ok(12));
    assert_eq!(parse_register_name("r13"), Ok(13));
    assert_eq!(parse_register_name("Sp"), Ok(13));
    assert_eq!(parse_register_name("R14"), Ok(14));
    assert_eq!(parse_register_name("lr"), Ok(14));
    assert_eq!(parse_register_name("r15"), Ok(15));
    assert_eq!(parse_register_name("PC"), Ok(15));
    assert_eq!(parse_register_name("xPsR"), Ok(16));
    assert_eq!(parse_register_name("psr"), Ok(16));
    assert_eq!(register_by_name("pc"), Some(15));
    assert_eq!(register_by_name("15"), None);
}

#[test]
fn registers_by_index() {
    assert_eq!(parse_register_name("0"), Ok(0));
    assert_eq!(parse_register_name("16"), Ok(16));
    assert_eq!(parse_register_name("+9"), Ok(9));
}

#[test]
fn register_index_out_of_range() {
    assert_eq!(
        parse_register_name("17"),
        Err("Register index 17 out of range (0-16)".to_string())
    );
    assert_eq!(
        parse_register_name("4294967295"),
        Err("Register index 4294967295 out of range (0-16)".to_string())
    );
}

#[test]
fn unknown_register() {
    assert_eq!(parse_register_name("foo"), Err("Unknown register: foo".to_string()));
    assert_eq!(parse_register_name(""), Err("Unknown register: ".to_string()));
    assert_eq!(parse_register_name("r16"), Err("Unknown register: r16".to_string()));
    assert_eq!(parse_register_name("0x3"), Err("Unknown register: 0x3".to_string()));
    assert_eq!(
        parse_register_name("4294967296"),
        Err("Unknown register: 4294967296".to_string())
    );
}

#[test]
fn register_arguments_agree_with_the_standard_library() {
    let samples = [
        "r0", "R0", "r1", "r9", "r10", "R11", "r12", "r13", "r14", "r15", "r16", "sp", "SP", "sP",
        "lr", "pc", "xpsr", "psr", "PSR", "xps", "xpsrr", "", "0", "5", "16", "17", "+16", "-1",
        "1e1", "rr", "p", "pcc", " pc", "\u{212a}", "ｒ0", "R\u{30a}", "0x10", "99999999999",
    ];
    for sample in samples {
        assert_eq!(parse_register_name(sample), by_the_standard_library(sample));
    }
}
