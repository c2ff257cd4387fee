use swd_debugger::text::{push_decimal, push_hex2, push_hex8};

fn hex8(value: u32) -> String {
    let mut out = String::new();
    push_hex8(&mut out, value);
    out
}

fn decimal(value: u64) -> String {
    let mut out = String::new();
    push_decimal(&mut out, value);
    out
}

#[test]
fn eight_upper_case_hex_digits() {
    assert_eq!(hex8(0), "00000000");
    assert_eq!(hex8(0x0001_0005), "00010005");
    assert_eq!(hex8(0xdead_beef), "DEADBEEF");
    assert_eq!(hex8(u32::MAX), "FFFFFFFF");
    assert_eq!(hex8(0x1234_abcd), "1234ABCD");
    for value in [1u32, 0x10, 0x9a, 0x41c0_0200, 0x8000_0000, 0x0fed_cba9] {
        assert_eq!(hex8(value), format!("{:08X}", value));
    }
}

#[test]
fn two_upper_case_hex_digits() {
    for value in 0..=255u8 {
        let mut out = String::new();
        push_hex2(&mut out, value);
        assert_eq!(out, format!("{:02X}", value));
    }
}

#[test]
fn decimal_without_leading_zeros() {
    assert_eq!(decimal(0), "0");
    assert_eq!(decimal(9), "9");
    assert_eq!(decimal(10), "10");
    assert_eq!(decimal(4096), "4096");
    assert_eq!(decimal(u64::MAX), "18446744073709551615");
    for value in [11u64, 99, 100, 101, 65535, 1_000_000_007, 4_294_967_296] {
        assert_eq!(decimal(value), value.to_string());
    }
}

#[test]
fn digits_are_appended_to_what_is_there() {
    let mut out = String::from("at 0x");
    push_hex8(&mut out, 0x20);
    out.push_str(": ");
    push_decimal(&mut out, 32);
    assert_eq!(out, "at 0x00000020: 32");
}
