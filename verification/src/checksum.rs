//! The two checksums of the probe: the 8-bit frame checksum that protects
//! every wire frame, and the 32-bit block checksum used for image digests.

use vstd::prelude::*;

verus! {

// ---------------------------------------------------------------------------
// Frame checksum (8 bit, polynomial 0x07, initial value 0)
// ---------------------------------------------------------------------------

/// One shift step of the frame checksum: shift left by one bit and fold the
/// polynomial `0x07` in when the top bit was set.
pub open spec fn crc8_shift(c: u8) -> u8 {
    if c & 0x80 != 0 {
        (c << 1) ^ 0x07
    } else {
        c << 1
    }
}

/// Eight shift steps: what happens to the accumulator after a data byte was
/// XORed into it.
pub open spec fn crc8_round(c: u8) -> u8 {
    crc8_shift(
        crc8_shift(
            crc8_shift(crc8_shift(crc8_shift(crc8_shift(crc8_shift(crc8_shift(c)))))),
        ),
    )
}

/// The frame checksum of a byte sequence, starting from zero.
pub open spec fn frame_checksum(bytes: Seq<u8>) -> u8
    decreases bytes.len(),
{
    if bytes.len() == 0 {
        0
    } else {
        crc8_round(frame_checksum(bytes.drop_last()) ^ bytes.last())
    }
}

/// The part of a buffer of `length` bytes that the frame checksum covers:
/// the indices `2 .. length - 3`, that is everything behind the two header
/// bytes, up to but excluding the checksum byte and the two footer bytes.
pub open spec fn checksum_span(data: Seq<u8>, length: int) -> Seq<u8> {
    if length <= 5 {
        Seq::empty()
    } else {
        data.subrange(2, length - 3)
    }
}

/// Feeds one byte to the frame checksum accumulator.
pub fn crc8_step(crc: u8, byte: u8) -> (r: u8)
    ensures
        r == crc8_round(crc ^ byte),
{
    let mut c: u8 = crc ^ byte;
    c = if (c & 0x80) != 0 { (c << 1) ^ 0x07 } else { c << 1 };
    c = if (c & 0x80) != 0 { (c << 1) ^ 0x07 } else { c << 1 };
    c = if (c & 0x80) != 0 { (c << 1) ^ 0x07 } else { c << 1 };
    c = if (c & 0x80) != 0 { (c << 1) ^ 0x07 } else { c << 1 };
    c = if (c & 0x80) != 0 { (c << 1) ^ 0x07 } else { c << 1 };
    c = if (c & 0x80) != 0 { (c << 1) ^ 0x07 } else { c << 1 };
    c = if (c & 0x80) != 0 { (c << 1) ^ 0x07 } else { c << 1 };
    c = if (c & 0x80) != 0 { (c << 1) ^ 0x07 } else { c << 1 };
    c
}

/// A round never maps two different accumulators to the same value.
pub proof fn lemma_crc8_round_injective(a: u8, b: u8)
    requires
        a != b,
    ensures
        crc8_round(a) != crc8_round(b),
{
    assert(a != b ==> crc8_round(a) != crc8_round(b)) by (bit_vector);
}

/// Two accumulators that differ keep differing, whatever equal bytes follow.
proof fn lemma_difference_survives(a: Seq<u8>, b: Seq<u8>, k: int, n: int)
    requires
        a.len() == b.len(),
        0 <= k < n <= a.len(),
        a[k] != b[k],
        forall|j: int| 0 <= j < a.len() && j != k ==> a[j] == b[j],
    ensures
        frame_checksum(a.take(n)) != frame_checksum(b.take(n)),
    decreases n,
{
    let pa = a.take(n);
    let pb = b.take(n);
    assert(pa.drop_last() =~= a.take(n - 1));
    assert(pb.drop_last() =~= b.take(n - 1));
    let sa = frame_checksum(a.take(n - 1));
    let sb = frame_checksum(b.take(n - 1));
    let xa = pa.last();
    let xb = pb.last();
    if n - 1 == k {
        assert(a.take(k) =~= b.take(k));
        assert(sa == sb);
        assert(xa != xb);
        assert(sa ^ xa != sb ^ xb) by (bit_vector)
            requires
                sa == sb,
                xa != xb,
        ;
    } else {
        lemma_difference_survives(a, b, k, n - 1);
        assert(xa == xb);
        assert(sa ^ xa != sb ^ xb) by (bit_vector)
            requires
                sa != sb,
                xa == xb,
        ;
    }
    lemma_crc8_round_injective(sa ^ xa, sb ^ xb);
}

/// Changing the value of exactly one covered byte changes the frame
/// checksum.
pub proof fn lemma_frame_checksum_detects_byte_change(a: Seq<u8>, b: Seq<u8>, k: int)
    requires
        a.len() == b.len(),
        0 <= k < a.len(),
        a[k] != b[k],
        forall|j: int| 0 <= j < a.len() && j != k ==> a[j] == b[j],
    ensures
        frame_checksum(a) != frame_checksum(b),
{
    lemma_difference_survives(a, b, k, a.len() as int);
    assert(a.take(a.len() as int) =~= a);
    assert(b.take(b.len() as int) =~= b);
}

/// Flipping any single bit of any covered byte changes the frame checksum.
pub proof fn lemma_frame_checksum_detects_bit_flip(bytes: Seq<u8>, k: int, bit: u8)
    requires
        0 <= k < bytes.len(),
        bit < 8,
    ensures
        frame_checksum(bytes.update(k, bytes[k] ^ (1u8 << bit))) != frame_checksum(bytes),
{
    let old_byte = bytes[k];
    let new_byte = old_byte ^ (1u8 << bit);
    assert(new_byte != old_byte) by (bit_vector)
        requires
            bit < 8,
            new_byte == old_byte ^ (1u8 << bit),
    ;
    lemma_frame_checksum_detects_byte_change(bytes.update(k, new_byte), bytes, k);
}

/// The frame checksum of a buffer is decided by the covered span alone: two
/// buffers of the same declared length that agree on the indices
/// `2 .. length - 3` have the same checksum, whatever their headers, footers
/// and checksum bytes hold.
pub proof fn lemma_frame_checksum_reads_span_only(a: Seq<u8>, b: Seq<u8>, length: int)
    requires
        length - 3 <= a.len(),
        length - 3 <= b.len(),
        forall|j: int| 2 <= j < length - 3 ==> a[j] == b[j],
    ensures
        frame_checksum(checksum_span(a, length)) == frame_checksum(checksum_span(b, length)),
{
    assert(checksum_span(a, length) =~= checksum_span(b, length));
}

/// Flipping any single bit at an index `2 .. length - 3` of a buffer changes
/// the frame checksum of the buffer.
pub proof fn lemma_buffer_bit_flip_changes_checksum(data: Seq<u8>, length: int, k: int, bit: u8)
    requires
        length - 3 <= data.len(),
        2 <= k < length - 3,
        bit < 8,
    ensures
        frame_checksum(checksum_span(data.update(k, data[k] ^ (1u8 << bit)), length))
            != frame_checksum(checksum_span(data, length)),
{
    let span = checksum_span(data, length);
    let flipped = data.update(k, data[k] ^ (1u8 << bit));
    assert(checksum_span(flipped, length) =~= span.update(k - 2, span[k - 2] ^ (1u8 << bit)));
    lemma_frame_checksum_detects_bit_flip(span, k - 2, bit);
}

// ---------------------------------------------------------------------------
// Block checksum (32 bit, reflected polynomial 0xEDB88320, initial value
// 0xFFFFFFFF, no final complement)
// ---------------------------------------------------------------------------

/// One shift step of the block checksum, least significant bit first.
pub open spec fn crc32_shift(c: u32) -> u32 {
    if c & 1 != 0 {
        (c >> 1) ^ 0xedb8_8320
    } else {
        c >> 1
    }
}

/// Eight shift steps of the block checksum.
pub open spec fn crc32_round(c: u32) -> u32 {
    crc32_shift(
        crc32_shift(
            crc32_shift(
                crc32_shift(crc32_shift(crc32_shift(crc32_shift(crc32_shift(c))))),
            ),
        ),
    )
}

/// The block checksum accumulator after `bytes`, started from `seed`.
pub open spec fn block_checksum_from(seed: u32, bytes: Seq<u8>) -> u32
    decreases bytes.len(),
{
    if bytes.len() == 0 {
        seed
    } else {
        crc32_round(block_checksum_from(seed, bytes.drop_last()) ^ (bytes.last() as u32))
    }
}

/// The block checksum of a byte sequence: seed `0xFFFFFFFF` and no final
/// complement.
pub open spec fn block_checksum(bytes: Seq<u8>) -> u32 {
    block_checksum_from(0xffff_ffff, bytes)
}

/// The common CRC-32, which differs from the block checksum by the final
/// complement only.
pub open spec fn plain_crc32(bytes: Seq<u8>) -> u32 {
    block_checksum(bytes) ^ 0xffff_ffff
}

/// The four bytes of a 32-bit value, least significant first.
pub open spec fn le_bytes(x: u32) -> Seq<u8> {
    seq![
        (x & 0xff) as u8,
        ((x >> 8) & 0xff) as u8,
        ((x >> 16) & 0xff) as u8,
        ((x >> 24) & 0xff) as u8,
    ]
}

/// Feeds one byte to the block checksum accumulator.
pub fn crc32_step(crc: u32, byte: u8) -> (r: u32)
    ensures
        r == crc32_round(crc ^ (byte as u32)),
{
    let mut c: u32 = crc ^ (byte as u32);
    c = if (c & 1) != 0 { (c >> 1) ^ 0xedb8_8320 } else { c >> 1 };
    c = if (c & 1) != 0 { (c >> 1) ^ 0xedb8_8320 } else { c >> 1 };
    c = if (c & 1) != 0 { (c >> 1) ^ 0xedb8_8320 } else { c >> 1 };
    c = if (c & 1) != 0 { (c >> 1) ^ 0xedb8_8320 } else { c >> 1 };
    c = if (c & 1) != 0 { (c >> 1) ^ 0xedb8_8320 } else { c >> 1 };
    c = if (c & 1) != 0 { (c >> 1) ^ 0xedb8_8320 } else { c >> 1 };
    c = if (c & 1) != 0 { (c >> 1) ^ 0xedb8_8320 } else { c >> 1 };
    c = if (c & 1) != 0 { (c >> 1) ^ 0xedb8_8320 } else { c >> 1 };
    c
}

/// The block checksum of the first `length` bytes of `data`.
pub fn block_crc(data: &[u8], length: usize) -> (crc: u32)
    requires
        length <= data.len(),
    ensures
        crc == block_checksum(data@.take(length as int)),
{
    let mut crc: u32 = 0xffff_ffff;
    let mut i: usize = 0;
    while i < length
        invariant
            i <= length <= data.len(),
            crc == block_checksum(data@.take(i as int)),
        decreases length - i,
    {
        proof {
            assert(data@.take(i + 1).drop_last() =~= data@.take(i as int));
        }
        crc = crc32_step(crc, data[i]);
        i = i + 1;
    }
    crc
}

/// The block checksum of the first `length` bytes of `data`, as four bytes,
/// least significant first.
pub fn software_crc(data: &[u8], length: usize) -> (out: [u8; 4])
    requires
        length <= data.len(),
    ensures
        out@ == le_bytes(block_checksum(data@.take(length as int))),
{
    let crc = block_crc(data, length);
    let out = [
        (crc & 0xff) as u8,
        ((crc >> 8) & 0xff) as u8,
        ((crc >> 16) & 0xff) as u8,
        ((crc >> 24) & 0xff) as u8,
    ];
    assert(out@ =~= le_bytes(crc));
    out
}

/// The data length that a block-checked frame declares in its bytes 2 and 3,
/// low byte first.
pub open spec fn declared_block_length(frame: Seq<u8>) -> int {
    frame[3] as int * 256 + frame[2] as int
}

/// Whether a block-checked frame is long enough for the data it declares.
pub open spec fn block_frame_in_bounds(frame: Seq<u8>) -> bool {
    frame.len() >= 4 && 4 + declared_block_length(frame) <= frame.len()
}

/// Whether the last four bytes of a block-checked frame are the block
/// checksum of its declared data, least significant byte first.
pub open spec fn block_frame_intact(frame: Seq<u8>) -> bool {
    le_bytes(block_checksum(frame.subrange(4, 4 + declared_block_length(frame))))
        == frame.subrange(frame.len() - 4, frame.len() as int)
}

/// Checks the trailing four bytes of a block-checked frame against the block
/// checksum of the data that the frame declares. A frame that passes gives
/// `Ok(true)`; one that fails gives the error text `CRC Check Failed`.
pub fn check_crc(frame: &[u8]) -> (r: Result<bool, String>)
    requires
        block_frame_in_bounds(frame@),
    ensures
        block_frame_intact(frame@) ==> r == Ok::<bool, String>(true),
        !block_frame_intact(frame@) ==> r is Err && r->Err_0@ == "CRC Check Failed"@,
{
    let n = frame.len();
    let lo = frame[2];
    let hi = frame[3];
    let data_length: usize = (hi as usize) * 256 + (lo as usize);
    let data = vstd::slice::slice_subrange(frame, 4, 4 + data_length);
    assert(data@.take(data_length as int) =~= frame@.subrange(4, 4 + data_length));
    let crc = software_crc(data, data_length);
    let ghost want = le_bytes(block_checksum(frame@.subrange(4, 4 + data_length)));
    let ghost have = frame@.subrange(n - 4, n as int);
    let same = crc[0] == frame[n - 4] && crc[1] == frame[n - 3] && crc[2] == frame[n - 2] && crc[3]
        == frame[n - 1];
    proof {
        assert(crc@ == want);
        assert(same ==> want =~= have);
        assert(!same ==> want != have) by {
            if !same {
                assert(want[0] != have[0] || want[1] != have[1] || want[2] != have[2] || want[3]
                    != have[3]);
            }
        }
    }
    if !same {
        return Err("CRC Check Failed".to_string());
    }
    Ok(true)
}

/// The block checksum differs from the common CRC-32 of the same bytes by a
/// bitwise complement, for every input; of no bytes at all it is the seed,
/// `0xFFFFFFFF`.
pub proof fn lemma_block_checksum_complements_crc32(bytes: Seq<u8>)
    ensures
        block_checksum(bytes) == !plain_crc32(bytes),
        block_checksum(Seq::<u8>::empty()) == 0xffff_ffffu32,
{
    let c = block_checksum(bytes);
    assert(c == !(c ^ 0xffff_ffffu32)) by (bit_vector);
}

/// The block checksum of a concatenation continues from the checksum of the
/// first part.
pub proof fn lemma_block_checksum_concat(seed: u32, a: Seq<u8>, b: Seq<u8>)
    ensures
        block_checksum_from(seed, a + b) == block_checksum_from(
            block_checksum_from(seed, a),
            b,
        ),
    decreases b.len(),
{
    if b.len() == 0 {
        assert(a + b =~= a);
    } else {
        assert((a + b).drop_last() =~= a + b.drop_last());
        lemma_block_checksum_concat(seed, a, b.drop_last());
    }
}

/// `crc::Crc::<u32>::checksum` of the `crc` crate, set up with its catalogue
/// entry `CRC_32_ISO_HDLC`, the common CRC-32: width 32, polynomial
/// `0x04C11DB7` (reflected `0xEDB88320`), initial value `0xFFFFFFFF`, input
/// and output reflected, final XOR `0xFFFFFFFF`. The contract claims that
/// the crate's table-driven result is the bitwise definition of that
/// algorithm: each table entry is eight shift steps of [`crc32_shift`], and
/// the final XOR is the complement.
#[verifier::external_body]
pub(crate) fn catalogue_crc32(bytes: &[u8]) -> (crc: u32)
    ensures
        crc == plain_crc32(bytes@),
{
    crc::Crc::<u32>::new(&crc::CRC_32_ISO_HDLC).checksum(bytes)
}

} // verus!
