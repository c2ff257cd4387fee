use std::collections::HashMap;
use swd_debugger::report::{section_block, SHOWN_MISMATCHES};
use swd_debugger::verification::{ByteMismatch, VerificationResult};

fn mismatches(count: u32) -> Vec<ByteMismatch> {
    (0..count)
        .map(|i| ByteMismatch { address: 0x0001_0000 + i, expected: i as u8, actual: 0xff })
        .collect()
}

#[test]
fn summary_of_a_clean_result() {
    let result = VerificationResult {
        success: true,
        total_sections: 3,
        verified_sections: vec![0, 0x100, 0x200],
        mismatched_sections: HashMap::new(),
        errors: vec![],
    };
    assert_eq!(
        result.summary_lines(),
        vec![
            "\n=== Flash Verification Report ===",
            "Total sections: 3",
            "Verified sections: 3",
            "Failed sections: 0",
        ]
    );
    assert_eq!(result.verdict_line(), "\nOverall result: PASS");
}

#[test]
fn summary_lists_every_error() {
    let mut failed = HashMap::new();
    failed.insert(0x100, mismatches(2));
    failed.insert(0x200, mismatches(1));
    let result = VerificationResult {
        success: false,
        total_sections: 12,
        verified_sections: vec![0],
        mismatched_sections: failed,
        errors: vec!["first".to_string(), "second one".to_string()],
    };
    assert_eq!(
        result.summary_lines(),
        vec![
            "\n=== Flash Verification Report ===",
            "Total sections: 12",
            "Verified sections: 1",
            "Failed sections: 2",
            "\nErrors:",
            "  \u{2022} first",
            "  \u{2022} second one",
        ]
    );
    assert_eq!(result.verdict_line(), "\nOverall result: FAIL");
}

#[test]
fn block_of_a_section_with_few_mismatches_shows_them_all() {
    let found = vec![
        ByteMismatch { address: 0x0001_0005, expected: 0x69, actual: 0x00 },
        ByteMismatch { address: 0x41c0_02ff, expected: 0x0a, actual: 0xfe },
    ];
    assert_eq!(
        section_block(0x0001_0000, &found),
        vec![
            "  Section 0x00010000: 2 mismatches",
            "    0x00010005: expected 0x69, got 0x00",
            "    0x41C002FF: expected 0x0A, got 0xFE",
        ]
    );
}

#[test]
fn block_of_a_section_with_exactly_five_mismatches_has_no_rest_line() {
    let lines = section_block(0x10, &mismatches(5));
    assert_eq!(lines.len(), 6);
    assert_eq!(lines[0], "  Section 0x00000010: 5 mismatches");
    assert_eq!(lines[5], "    0x00010004: expected 0x04, got 0xFF");
    assert_eq!(SHOWN_MISMATCHES, 5);
}

#[test]
fn block_of_a_section_with_many_mismatches_shows_five_and_counts_the_rest() {
    let lines = section_block(0x41c0_0000, &mismatches(123));
    assert_eq!(
        lines,
        vec![
            "  Section 0x41C00000: 123 mismatches",
            "    0x00010000: expected 0x00, got 0xFF",
            "    0x00010001: expected 0x01, got 0xFF",
            "    0x00010002: expected 0x02, got 0xFF",
            "    0x00010003: expected 0x03, got 0xFF",
            "    0x00010004: expected 0x04, got 0xFF",
            "    ... and 118 more",
        ]
    );
    assert_eq!(section_block(0, &mismatches(6))[6], "    ... and 1 more");
}

#[test]
fn block_of_a_section_without_mismatches_is_its_heading() {
    assert_eq!(section_block(0xffff_ffff, &vec![]), vec!["  Section 0xFFFFFFFF: 0 mismatches"]);
}
