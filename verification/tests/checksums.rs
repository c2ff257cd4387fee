use swd_debugger::checksum::{block_crc, check_crc, crc32_step, crc8_step, software_crc};
use swd_debugger::protocol::ProtocolHandler;

fn framed(covered: &[u8]) -> Vec<u8> {
    let mut buffer = vec![0xaa, 0xbb];
    buffer.extend_from_slice(covered);
    buffer.extend_from_slice(&[0xcc, 0xdd, 0xee]);
    buffer
}

#[test]
fn frame_checksum_of_the_standard_check_string() {
    let buffer = framed(b"123456789");
    assert_eq!(ProtocolHandler::compute_crc(&buffer, buffer.len()), 0xf4);
}

#[test]
fn frame_checksum_of_nothing_is_zero() {
    assert_eq!(ProtocolHandler::compute_crc(&[1, 2, 3, 4, 5], 5), 0);
    assert_eq!(ProtocolHandler::compute_crc(&[], 3), 0);
    assert_eq!(ProtocolHandler::compute_crc(&[9, 9, 9, 9], 4), 0);
}

#[test]
fn frame_checksum_of_single_bytes() {
    assert_eq!(ProtocolHandler::compute_crc(&framed(&[0x00]), 6), 0x00);
    assert_eq!(ProtocolHandler::compute_crc(&framed(&[0x01]), 6), 0x07);
    assert_eq!(ProtocolHandler::compute_crc(&framed(&[0x80]), 6), 0x89);
    assert_eq!(crc8_step(0, 0x01), 0x07);
    assert_eq!(crc8_step(0x07, 0x07), 0x00);
}

#[test]
fn frame_checksum_ignores_header_checksum_byte_and_footer() {
    let covered = [0x00, 0x02, 0xc1];
    let mut a = vec![0xff, 0xf9];
    a.extend_from_slice(&covered);
    a.extend_from_slice(&[0x00, 0xf5, 0xe7]);
    let mut b = vec![0x12, 0x34];
    b.extend_from_slice(&covered);
    b.extend_from_slice(&[0x77, 0x00, 0x01]);
    assert_eq!(ProtocolHandler::compute_crc(&a, 8), 0x63);
    assert_eq!(ProtocolHandler::compute_crc(&b, 8), 0x63);
}

#[test]
fn frame_checksum_is_stable_on_recomputation() {
    let buffer = framed(&[0x10, 0x20, 0x30, 0x40, 0x50]);
    let first = ProtocolHandler::compute_crc(&buffer, buffer.len());
    let second = ProtocolHandler::compute_crc(&buffer, buffer.len());
    assert_eq!(first, second);
}

#[test]
fn every_single_bit_flip_in_the_span_changes_the_frame_checksum() {
    let buffer = framed(&[0x00, 0x0a, 0xc4, 0x20, 0x00, 0x00, 0x00, 0xde, 0xad, 0xbe, 0xef]);
    let reference = ProtocolHandler::compute_crc(&buffer, buffer.len());
    for index in 2..buffer.len() - 3 {
        for bit in 0..8 {
            let mut flipped = buffer.clone();
            flipped[index] ^= 1 << bit;
            assert_ne!(ProtocolHandler::compute_crc(&flipped, flipped.len()), reference);
        }
    }
}

#[test]
fn block_checksum_of_no_bytes_is_the_seed() {
    assert_eq!(block_crc(&[], 0), 0xffff_ffff);
    assert_eq!(software_crc(&[], 0), [0xff, 0xff, 0xff, 0xff]);
    assert_eq!(block_crc(&[1, 2, 3], 0), 0xffff_ffff);
}

#[test]
fn block_checksum_of_the_standard_check_string() {
    assert_eq!(block_crc(b"123456789", 9), 0x340b_c6d9);
    assert_eq!(software_crc(b"123456789", 9), [0xd9, 0xc6, 0x0b, 0x34]);
}

#[test]
fn block_checksum_reads_only_the_given_length() {
    assert_eq!(block_crc(b"abcdef", 3), 0xcadb_be3d);
    assert_eq!(block_crc(b"abc", 3), 0xcadb_be3d);
    assert_eq!(block_crc(&[0x00], 1), 0x2dfd_1072);
    assert_eq!(crc32_step(0xffff_ffff, 0x00), 0x2dfd_1072);
}

#[test]
fn block_checksum_is_the_complement_of_the_common_crc32() {
    let common = crc::Crc::<u32>::new(&crc::CRC_32_ISO_HDLC);
    let inputs: Vec<Vec<u8>> = vec![
        vec![],
        vec![0],
        vec![0xff; 7],
        b"123456789".to_vec(),
        (0..=255u8).collect(),
        (0..1000u32).map(|i| (i * 7 + 3) as u8).collect(),
    ];
    for input in inputs {
        assert_eq!(block_crc(&input, input.len()), !common.checksum(&input));
    }
    assert_eq!(common.checksum(b"123456789"), 0xcbf4_3926);
}

#[test]
fn block_checked_frame_passes() {
    let data = [0x11, 0x22, 0x33];
    let mut frame = vec![0xaa, 0xbb, 0x03, 0x00];
    frame.extend_from_slice(&data);
    frame.extend_from_slice(&software_crc(&data, 3));
    assert_eq!(check_crc(&frame), Ok(true));
}

#[test]
fn block_checked_frame_with_a_wrong_trailer_fails() {
    let data = [0x11, 0x22, 0x33];
    let mut frame = vec![0xaa, 0xbb, 0x03, 0x00];
    frame.extend_from_slice(&data);
    let mut trailer = software_crc(&data, 3);
    trailer[2] ^= 0x10;
    frame.extend_from_slice(&trailer);
    assert_eq!(check_crc(&frame), Err("CRC Check Failed".to_string()));
}

#[test]
fn block_checked_frame_with_changed_data_fails() {
    let data = [0x11, 0x22, 0x33];
    let mut frame = vec![0xaa, 0xbb, 0x03, 0x00];
    frame.extend_from_slice(&data);
    frame.extend_from_slice(&software_crc(&data, 3));
    frame[5] = 0x23;
    assert_eq!(check_crc(&frame), Err("CRC Check Failed".to_string()));
}

#[test]
fn block_checked_frame_reads_its_length_low_byte_first() {
    let data: Vec<u8> = (0..300u32).map(|i| i as u8).collect();
    let mut frame = vec![0x00, 0x00, 0x2c, 0x01];
    frame.extend_from_slice(&data);
    frame.extend_from_slice(&software_crc(&data, 300));
    assert_eq!(check_crc(&frame), Ok(true));
}

#[test]
fn block_checked_frame_of_no_data() {
    assert_eq!(check_crc(&[0, 0, 0, 0, 0xff, 0xff, 0xff, 0xff]), Ok(true));
    assert_eq!(check_crc(&[0xff, 0xff, 0, 0]), Err("CRC Check Failed".to_string()));
}
