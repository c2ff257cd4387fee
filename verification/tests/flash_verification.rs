use std::cell::RefCell;
use swd_debugger::elf_reader::{ElfFlashVerifier, FlashSection};
use swd_debugger::verification::{
    append_padded, find_mismatches, read_failure_message, size_mismatch_message, ByteMismatch,
    VerificationResult, CHUNK_SIZE, FILL_BYTE,
};

fn section(address: u32, data: Vec<u8>) -> FlashSection {
    FlashSection { address, size: data.len() as u32, data }
}

fn three_sections() -> ElfFlashVerifier {
    ElfFlashVerifier {
        sections: vec![
            section(0x0000_0000, (0..10).collect()),
            section(0x0001_0000, (100..116).collect()),
            section(0x41c0_0200, vec![0xaa, 0xbb, 0xcc]),
        ],
        entry_point: 0x0001_0001,
    }
}

/// Flash that holds exactly what the sections expect.
fn programmed(model: &ElfFlashVerifier, address: u32, length: u32) -> Vec<u8> {
    let mut out = Vec::new();
    for at in address..address + length {
        for s in &model.sections {
            if at >= s.address && ((at - s.address) as usize) < s.data.len() {
                out.push(s.data[(at - s.address) as usize]);
            }
        }
    }
    out
}

#[test]
fn matching_flash_verifies_every_section() {
    let model = three_sections();
    let result = model.verify_flash(|address, length| Ok(programmed(&model, address, length)));
    assert!(result.success);
    assert_eq!(result.total_sections, 3);
    assert_eq!(result.verified_sections, vec![0x0000_0000, 0x0001_0000, 0x41c0_0200]);
    assert!(result.mismatched_sections.is_empty());
    assert!(result.errors.is_empty());
}

#[test]
fn requests_are_chunks_of_at_most_four_bytes_in_address_order() {
    let model = three_sections();
    let requests = RefCell::new(Vec::new());
    let result = model.verify_flash(|address, length| {
        requests.borrow_mut().push((address, length));
        Ok(programmed(&model, address, length))
    });
    assert!(result.success);
    assert_eq!(
        requests.into_inner(),
        vec![
            (0x0000_0000, 4),
            (0x0000_0004, 4),
            (0x0000_0008, 2),
            (0x0001_0000, 4),
            (0x0001_0004, 4),
            (0x0001_0008, 4),
            (0x0001_000c, 4),
            (0x41c0_0200, 3),
        ]
    );
    assert_eq!(CHUNK_SIZE, 4);
}

#[test]
fn one_differing_byte_gives_one_mismatch() {
    let model = three_sections();
    let result = model.verify_flash(|address, length| {
        let mut chunk = programmed(&model, address, length);
        if address <= 0x0001_0005 && 0x0001_0005 < address + length {
            chunk[(0x0001_0005 - address) as usize] = 0x00;
        }
        Ok(chunk)
    });
    assert!(!result.success);
    assert_eq!(result.total_sections, 3);
    assert_eq!(result.verified_sections, vec![0x0000_0000, 0x41c0_0200]);
    assert_eq!(result.mismatched_sections.len(), 1);
    assert_eq!(
        result.mismatched_sections[&0x0001_0000],
        vec![ByteMismatch { address: 0x0001_0005, expected: 105, actual: 0x00 }]
    );
    assert!(result.errors.is_empty());
}

#[test]
fn every_differing_byte_is_kept_in_offset_order() {
    let model = ElfFlashVerifier { sections: vec![section(0x100, vec![7; 9])], entry_point: 0 };
    let result = model.verify_flash(|_, length| Ok(vec![8; length as usize]));
    let found = &result.mismatched_sections[&0x100];
    assert_eq!(found.len(), 9);
    for (offset, mismatch) in found.iter().enumerate() {
        assert_eq!(
            *mismatch,
            ByteMismatch { address: 0x100 + offset as u32, expected: 7, actual: 8 }
        );
    }
    assert!(!result.success);
    assert!(result.verified_sections.is_empty());
}

#[test]
fn failed_read_aborts_the_whole_run() {
    let model = three_sections();
    let requests = RefCell::new(Vec::new());
    let result = model.verify_flash(|address, length| {
        requests.borrow_mut().push(address);
        if requests.borrow().len() == 2 {
            Err("timed out".to_string())
        } else {
            Ok(programmed(&model, address, length))
        }
    });
    assert_eq!(result.errors, vec!["Failed to read flash at 0x00000004: timed out".to_string()]);
    assert!(result.verified_sections.is_empty());
    assert!(result.mismatched_sections.is_empty());
    assert!(!result.success);
    assert_eq!(result.total_sections, 0);
    assert_eq!(requests.into_inner(), vec![0x0000_0000, 0x0000_0004]);
}

#[test]
fn failed_read_in_a_later_section_keeps_what_was_verified() {
    let model = three_sections();
    let result = model.verify_flash(|address, length| {
        if address == 0x0001_0008 {
            Err("no answer".to_string())
        } else {
            Ok(programmed(&model, address, length))
        }
    });
    assert_eq!(result.verified_sections, vec![0x0000_0000]);
    assert_eq!(result.errors, vec!["Failed to read flash at 0x00010008: no answer".to_string()]);
    assert!(!result.success);
}

#[test]
fn short_chunk_is_padded_with_the_fill_byte() {
    let model =
        ElfFlashVerifier { sections: vec![section(0x200, vec![1, 2, 0xff, 0xff])], entry_point: 0 };
    let result = model.verify_flash(|_, _| Ok(vec![1, 2]));
    assert!(result.success);
    assert_eq!(result.verified_sections, vec![0x200]);
}

#[test]
fn padding_is_compared_like_any_other_byte() {
    let model =
        ElfFlashVerifier { sections: vec![section(0x200, vec![1, 2, 3, 4, 5, 6])], entry_point: 0 };
    let result = model.verify_flash(|address, _| {
        if address == 0x200 {
            Ok(vec![1, 2, 3])
        } else {
            Ok(vec![])
        }
    });
    assert_eq!(
        result.mismatched_sections[&0x200],
        vec![
            ByteMismatch { address: 0x203, expected: 4, actual: 0xff },
            ByteMismatch { address: 0x204, expected: 5, actual: 0xff },
            ByteMismatch { address: 0x205, expected: 6, actual: 0xff },
        ]
    );
}

#[test]
fn long_chunk_is_cut_to_the_request() {
    let model = ElfFlashVerifier { sections: vec![section(0x300, vec![9, 9, 9])], entry_point: 0 };
    let result = model.verify_flash(|_, _| Ok(vec![9, 9, 9, 1, 2, 3]));
    assert!(result.success);
}

#[test]
fn append_padded_fills_cuts_and_copies() {
    let mut flash = vec![0x10];
    append_padded(&mut flash, &vec![1, 2], 4);
    assert_eq!(flash, vec![0x10, 1, 2, 0xff, 0xff]);
    append_padded(&mut flash, &vec![3, 4, 5, 6, 7], 2);
    assert_eq!(flash, vec![0x10, 1, 2, 0xff, 0xff, 3, 4]);
    append_padded(&mut flash, &vec![8, 9, 10], 3);
    assert_eq!(flash, vec![0x10, 1, 2, 0xff, 0xff, 3, 4, 8, 9, 10]);
    append_padded(&mut flash, &vec![], 1);
    assert_eq!(flash.last(), Some(&FILL_BYTE));
    let before = flash.clone();
    append_padded(&mut flash, &vec![1], 0);
    assert_eq!(flash, before);
}

#[test]
fn size_that_differs_from_the_data_is_an_error_of_that_section_only() {
    let model = ElfFlashVerifier {
        sections: vec![
            FlashSection { address: 0x100, size: 6, data: vec![1, 2, 3, 4] },
            section(0x200, vec![5, 6]),
        ],
        entry_point: 0,
    };
    let requests = RefCell::new(Vec::new());
    let result = model.verify_flash(|address, length| {
        requests.borrow_mut().push((address, length));
        Ok(vec![5, 6, 7, 8][..length as usize].to_vec())
    });
    assert_eq!(
        result.errors,
        vec!["Size mismatch in section at 0x00000100: expected 4 bytes, got 6 bytes".to_string()]
    );
    assert_eq!(result.verified_sections, vec![0x200]);
    assert!(result.mismatched_sections.is_empty());
    assert!(!result.success);
    assert_eq!(result.total_sections, 2);
    assert_eq!(requests.into_inner(), vec![(0x100, 4), (0x104, 2), (0x200, 2)]);
}

#[test]
fn empty_section_is_verified_without_a_request() {
    let model = ElfFlashVerifier {
        sections: vec![section(0x100, vec![]), section(0x200, vec![1])],
        entry_point: 0,
    };
    let requests = RefCell::new(0);
    let result = model.verify_flash(|_, _| {
        *requests.borrow_mut() += 1;
        Ok(vec![1])
    });
    assert!(result.success);
    assert_eq!(result.verified_sections, vec![0x100, 0x200]);
    assert_eq!(requests.into_inner(), 1);
}

#[test]
fn no_sections_is_a_success_without_requests() {
    let model = ElfFlashVerifier { sections: vec![], entry_point: 0 };
    let result = model.verify_flash(|_, _| Err("never asked".to_string()));
    assert!(result.success);
    assert_eq!(result.total_sections, 0);
    assert!(result.errors.is_empty());
}

#[test]
fn sections_of_equal_address_share_one_mismatch_entry() {
    let model = ElfFlashVerifier {
        sections: vec![section(0x100, vec![1]), section(0x100, vec![2])],
        entry_point: 0,
    };
    let result = model.verify_flash(|_, _| Ok(vec![0]));
    assert_eq!(result.mismatched_sections.len(), 1);
    assert_eq!(
        result.mismatched_sections[&0x100],
        vec![ByteMismatch { address: 0x100, expected: 2, actual: 0 }]
    );
    assert_eq!(result.total_sections, 2);
}

#[test]
fn section_at_the_top_of_the_address_space() {
    let model =
        ElfFlashVerifier { sections: vec![section(0xffff_fffa, vec![1, 2, 3, 4, 5, 6])], entry_point: 0 };
    assert!(model.is_addressable());
    let requests = RefCell::new(Vec::new());
    let result = model.verify_flash(|address, length| {
        requests.borrow_mut().push((address, length));
        Ok(vec![1, 2, 3, 4, 5, 0][(address - 0xffff_fffa) as usize..][..length as usize].to_vec())
    });
    assert_eq!(requests.into_inner(), vec![(0xffff_fffa, 4), (0xffff_fffe, 2)]);
    assert_eq!(
        result.mismatched_sections[&0xffff_fffa],
        vec![ByteMismatch { address: 0xffff_ffff, expected: 6, actual: 0 }]
    );
}

#[test]
fn find_mismatches_lists_only_differences() {
    let expected = section(0x1000, vec![1, 2, 3, 4, 5]);
    assert_eq!(find_mismatches(&expected, &vec![1, 2, 3, 4, 5]), vec![]);
    assert_eq!(
        find_mismatches(&expected, &vec![0, 2, 3, 9, 5]),
        vec![
            ByteMismatch { address: 0x1000, expected: 1, actual: 0 },
            ByteMismatch { address: 0x1003, expected: 4, actual: 9 },
        ]
    );
}

#[test]
fn fresh_result_is_an_empty_success() {
    let result = VerificationResult::new();
    assert!(result.success);
    assert_eq!(result.total_sections, 0);
    assert!(result.verified_sections.is_empty());
    assert!(result.mismatched_sections.is_empty());
    assert!(result.errors.is_empty());
}

#[test]
fn messages_name_the_address_in_eight_hex_digits() {
    assert_eq!(
        read_failure_message(0x41c0_02fc, &"port closed".to_string()),
        "Failed to read flash at 0x41C002FC: port closed"
    );
    assert_eq!(read_failure_message(0, &String::new()), "Failed to read flash at 0x00000000: ");
    assert_eq!(
        size_mismatch_message(0xdead_beef, 0, 4096),
        "Size mismatch in section at 0xDEADBEEF: expected 0 bytes, got 4096 bytes"
    );
    assert_eq!(
        size_mismatch_message(0x10, 1234567890, 9),
        "Size mismatch in section at 0x00000010: expected 1234567890 bytes, got 9 bytes"
    );
}
