//! The frame codec: commands to wire frames, and reply buffers to payloads
//! or classified failures.
//!
//! A frame is `FF F9`, a big-endian length, an opcode, the opcode's payload,
//! one checksum byte and `F5 E7`. The length counts the bytes from the opcode
//! through the checksum; the checksum covers the length, the opcode and the
//! payload.

use crate::checksum::{checksum_span, crc8_step, frame_checksum};
use vstd::prelude::*;

verus! {

/// A request to the probe.
pub enum SWDCommand {
    Halt,
    Resume,
    ReadBytes { start_address: u32, length: u32 },
    ReadWord { start_address: u32 },
    ReadWords { start_address: u32, length: u32 },
    Write { write_address: u32, write_data: Vec<u8> },
}

/// Why a reply buffer gave no payload.
#[derive(Clone, Copy, Debug, PartialEq, Eq, Structural)]
pub enum FrameError {
    /// The buffer is shorter than a frame, or than the payload it should
    /// carry.
    Truncated,
    /// The checksum byte does not match the covered bytes.
    ChecksumMismatch,
    /// The probe answered with the command's error code.
    CommandFailed,
    /// The probe answered with a code that the command does not know.
    UnknownResponse,
    /// The command asks for more than one frame can carry.
    PayloadTooLarge,
}

/// Encodes one command and classifies the reply to it.
pub struct ProtocolHandler {
    command: SWDCommand,
}

/// The four bytes of a 32-bit value, most significant first.
pub open spec fn be32(x: u32) -> Seq<u8> {
    seq![
        ((x >> 24) & 0xff) as u8,
        ((x >> 16) & 0xff) as u8,
        ((x >> 8) & 0xff) as u8,
        (x & 0xff) as u8,
    ]
}

/// The low sixteen bits of a value as two bytes, most significant first.
pub open spec fn be16(x: u32) -> Seq<u8> {
    seq![((x >> 8) & 0xff) as u8, (x & 0xff) as u8]
}

/// The two bytes of a frame's length field for a length `n`.
pub open spec fn length_field(n: int) -> Seq<u8> {
    seq![(n / 256) as u8, (n % 256) as u8]
}

/// The bytes of a frame that the checksum covers: length field, opcode and
/// payload.
pub open spec fn covered_bytes(opcode: u8, payload: Seq<u8>) -> Seq<u8> {
    length_field(payload.len() as int + 2) + seq![opcode] + payload
}

/// The frame that carries `payload` under `opcode`.
pub open spec fn frame_bytes(opcode: u8, payload: Seq<u8>) -> Seq<u8> {
    seq![0xffu8, 0xf9u8] + covered_bytes(opcode, payload) + seq![
        frame_checksum(covered_bytes(opcode, payload)),
    ] + seq![0xf5u8, 0xe7u8]
}

/// The value of a frame's length field.
pub open spec fn declared_length(frame: Seq<u8>) -> int {
    frame[2] as int * 256 + frame[3] as int
}

impl SWDCommand {
    /// The opcode that announces the command on the wire.
    pub open spec fn opcode(self) -> u8 {
        match self {
            SWDCommand::Halt => ProtocolHandler::HALT_COMMAND,
            SWDCommand::Resume => ProtocolHandler::RESUME_COMMAND,
            SWDCommand::ReadWord { .. } => ProtocolHandler::READ_WORD,
            SWDCommand::Write { .. } => ProtocolHandler::WRITE_COMMAND,
            SWDCommand::ReadBytes { .. } => ProtocolHandler::READ_BYTES_COMMAND,
            SWDCommand::ReadWords { .. } => ProtocolHandler::READ_WORDS_COMMAND,
        }
    }

    /// The bytes between the opcode and the checksum of the request.
    pub open spec fn request_payload(self) -> Seq<u8> {
        match self {
            SWDCommand::Halt => Seq::empty(),
            SWDCommand::Resume => Seq::empty(),
            SWDCommand::ReadWord { start_address } => be32(start_address),
            SWDCommand::Write { write_address, write_data } => be32(write_address) + write_data@,
            SWDCommand::ReadBytes { start_address, length } => be32(start_address) + be16(length),
            SWDCommand::ReadWords { start_address, length } => be32(start_address) + be16(length),
        }
    }

    /// Whether the command fits a frame: a read or a write moves at most 4096
    /// bytes, which for a word read are 1024 words.
    pub open spec fn encodable(self) -> bool {
        match self {
            SWDCommand::ReadBytes { length, .. } => length <= ProtocolHandler::MAX_DATA_LENGTH,
            SWDCommand::ReadWords { length, .. } => length as int * ProtocolHandler::WORD_SIZE
                <= ProtocolHandler::MAX_DATA_LENGTH,
            SWDCommand::Write { write_data, .. } => write_data@.len()
                <= ProtocolHandler::MAX_DATA_LENGTH,
            _ => true,
        }
    }

    /// The request frame of the command.
    pub open spec fn frame(self) -> Seq<u8> {
        frame_bytes(self.opcode(), self.request_payload())
    }

    /// The code with which the probe acknowledges the command.
    pub open spec fn ack_code(self) -> u8 {
        match self {
            SWDCommand::Halt => ProtocolHandler::HALT_ACK,
            SWDCommand::Resume => ProtocolHandler::RESUME_ACK,
            SWDCommand::Write { .. } => ProtocolHandler::WRITE_ACK,
            _ => ProtocolHandler::READ_ACK,
        }
    }

    /// The code with which the probe reports that the command failed.
    pub open spec fn error_code(self) -> u8 {
        match self {
            SWDCommand::Halt => ProtocolHandler::HALT_ERROR,
            SWDCommand::Resume => ProtocolHandler::RESUME_ERROR,
            SWDCommand::Write { .. } => ProtocolHandler::WRITE_ERROR,
            _ => ProtocolHandler::READ_ERROR,
        }
    }

    /// Whether the command asks for data.
    pub open spec fn is_read(self) -> bool {
        self is ReadBytes || self is ReadWord || self is ReadWords
    }

    /// The number of data bytes that an acknowledging reply carries.
    pub open spec fn reply_payload_len(self) -> int {
        match self {
            SWDCommand::ReadBytes { length, .. } => length as int,
            SWDCommand::ReadWord { .. } => 4,
            SWDCommand::ReadWords { length, .. } => length as int * 4,
            _ => 0,
        }
    }

    /// What a reply buffer means to the command. A buffer of fewer than nine
    /// bytes is truncated; then the checksum decides; then the code at
    /// offset 5: the error code, an unknown code, or the acknowledgement, in
    /// which case a read command returns the data that follows it and any
    /// other command the acknowledgement itself.
    pub open spec fn decode(self, data: Seq<u8>) -> Result<Seq<u8>, FrameError> {
        if data.len() < 9 {
            Err(FrameError::Truncated)
        } else if frame_checksum(checksum_span(data, data.len() as int)) != data[data.len() - 3] {
            Err(FrameError::ChecksumMismatch)
        } else if data[5] == self.error_code() {
            Err(FrameError::CommandFailed)
        } else if data[5] != self.ack_code() {
            Err(FrameError::UnknownResponse)
        } else if data.len() < 9 + self.reply_payload_len() {
            Err(FrameError::Truncated)
        } else if self.is_read() {
            Ok(data.subrange(6, 6 + self.reply_payload_len()))
        } else {
            Ok(seq![self.ack_code()])
        }
    }

    /// The text that reports a failure of this command.
    pub open spec fn failure_text(self, error: FrameError) -> Seq<char> {
        match error {
            FrameError::Truncated => "Truncated response"@,
            FrameError::ChecksumMismatch => "CRC mismatch"@,
            FrameError::PayloadTooLarge => "Length exceeds maximum allowed value"@,
            FrameError::CommandFailed => match self {
                SWDCommand::Halt => "Halt command failed"@,
                SWDCommand::Resume => "Resume command failed"@,
                SWDCommand::Write { .. } => "Write command failed"@,
                _ => "Read command failed"@,
            },
            FrameError::UnknownResponse => match self {
                SWDCommand::Halt => "Unknown response to Halt command"@,
                SWDCommand::Resume => "Unknown response to Resume command"@,
                SWDCommand::Write { .. } => "Unknown response to Write command"@,
                _ => "Unknown response to Read command"@,
            },
        }
    }
}

/// The acknowledging reply that carries `payload`: the opcode echoed, the
/// command's acknowledgement code at offset 5, and the data after it.
pub open spec fn acknowledgement(command: SWDCommand, payload: Seq<u8>) -> Seq<u8> {
    frame_bytes(command.opcode(), seq![command.ack_code()] + payload)
}

/// The reply with which the probe refuses `command`.
pub open spec fn refusal(command: SWDCommand) -> Seq<u8> {
    frame_bytes(command.opcode(), seq![command.error_code()])
}

fn push_be32(data: &mut Vec<u8>, x: u32)
    ensures
        final(data)@ == old(data)@ + be32(x),
{
    data.push(((x >> 24) & 0xff) as u8);
    data.push(((x >> 16) & 0xff) as u8);
    data.push(((x >> 8) & 0xff) as u8);
    data.push((x & 0xff) as u8);
    assert(data@ =~= old(data)@ + be32(x));
}

fn push_be16(data: &mut Vec<u8>, x: u32)
    ensures
        final(data)@ == old(data)@ + be16(x),
{
    data.push(((x >> 8) & 0xff) as u8);
    data.push((x & 0xff) as u8);
    assert(data@ =~= old(data)@ + be16(x));
}

impl ProtocolHandler {
    /// The two bytes that open every frame.
    pub const HEADER: [u8; 2] = [0xff, 0xf9];

    /// The two bytes that close every frame.
    pub const FOOTER: [u8; 2] = [0xf5, 0xe7];

    /// The largest number of bytes that one read or write moves.
    pub const MAX_DATA_LENGTH: usize = 4096;

    pub const HALT_COMMAND: u8 = 0xc1;

    pub const RESUME_COMMAND: u8 = 0xc2;

    pub const READ_WORD: u8 = 0xc3;

    pub const READ_BYTES_COMMAND: u8 = 0xc6;

    pub const READ_WORDS_COMMAND: u8 = 0xc7;

    pub const WRITE_COMMAND: u8 = 0xc4;

    /// Where a reply holds its acknowledgement or error code.
    pub const ACK_OFFSET: usize = 5;

    pub const HALT_ACK: u8 = 0xd1;

    pub const HALT_ERROR: u8 = 0xe1;

    pub const RESUME_ACK: u8 = 0xd1;

    pub const RESUME_ERROR: u8 = 0xe1;

    pub const READ_ACK: u8 = 0xd2;

    pub const READ_ERROR: u8 = 0xe3;

    pub const WRITE_ACK: u8 = 0xd1;

    pub const WRITE_ERROR: u8 = 0xe1;

    /// Bytes in a word.
    pub const WORD_SIZE: usize = 4;

    /// The command that the handler encodes and decodes for.
    pub closed spec fn command(self) -> SWDCommand {
        self.command
    }

    /// A handler for one command.
    pub fn new(command: SWDCommand) -> (handler: Self)
        ensures
            handler.command() == command,
    {
        ProtocolHandler { command }
    }

    /// The frame checksum of a buffer of `length` bytes: the checksum of the
    /// bytes at `2 .. length - 3`.
    pub fn compute_crc(data: &[u8], length: usize) -> (crc: u8)
        requires
            length >= 3,
            length <= 5 || length - 3 <= data.len(),
        ensures
            crc == frame_checksum(checksum_span(data@, length as int)),
    {
        let mut crc: u8 = 0x00;
        let end: usize = length - 3;
        let mut i: usize = 2;
        if end <= 2 {
            return crc;
        }
        let ghost span = checksum_span(data@, length as int);
        while i < end
            invariant
                2 <= i <= end,
                end == length - 3,
                end <= data.len(),
                span == data@.subrange(2, end as int),
                crc == frame_checksum(span.take(i - 2)),
            decreases end - i,
        {
            proof {
                assert(span.take(i - 1).drop_last() =~= span.take(i - 2));
                assert(span.take(i - 1).last() == data@[i as int]);
            }
            crc = crc8_step(crc, data[i]);
            i = i + 1;
        }
        proof {
            assert(span.take(end - 2) =~= span);
        }
        crc
    }
}

/// The length field of a frame holds the frame's length less six, for every
/// payload that the field has room for.
pub proof fn lemma_frame_length(opcode: u8, payload: Seq<u8>)
    requires
        payload.len() + 2 < 65536,
    ensures
        frame_bytes(opcode, payload).len() == payload.len() + 8,
        declared_length(frame_bytes(opcode, payload)) == frame_bytes(opcode, payload).len() - 6,
{
    let n = payload.len() as int + 2;
    let frame = frame_bytes(opcode, payload);
    assert(frame[2] == (n / 256) as u8);
    assert(frame[3] == (n % 256) as u8);
}

/// The checksum byte of a frame is the frame checksum of the bytes that the
/// buffer-level checksum reads, so a frame is accepted by the check that
/// built it.
pub proof fn lemma_frame_checksum_in_place(opcode: u8, payload: Seq<u8>)
    ensures
        checksum_span(frame_bytes(opcode, payload), frame_bytes(opcode, payload).len() as int)
            == covered_bytes(opcode, payload),
        frame_bytes(opcode, payload)[frame_bytes(opcode, payload).len() - 3] == frame_checksum(
            covered_bytes(opcode, payload),
        ),
{
    let frame = frame_bytes(opcode, payload);
    assert(checksum_span(frame, frame.len() as int) =~= covered_bytes(opcode, payload));
}

/// Every encodable command's frame declares its own length less six.
pub proof fn lemma_command_frame_length(command: SWDCommand)
    requires
        command.encodable(),
    ensures
        declared_length(command.frame()) == command.frame().len() - 6,
{
    lemma_frame_length(command.opcode(), command.request_payload());
}

/// A reply that acknowledges a command and carries the data it asked for
/// decodes to exactly that data; for a command that asks for none, to the
/// acknowledgement code.
pub proof fn lemma_acknowledged_round_trip(command: SWDCommand, payload: Seq<u8>)
    requires
        payload.len() == command.reply_payload_len(),
    ensures
        command.is_read() ==> command.decode(acknowledgement(command, payload)) == Ok::<
            Seq<u8>,
            FrameError,
        >(payload),
        !command.is_read() ==> command.decode(acknowledgement(command, payload)) == Ok::<
            Seq<u8>,
            FrameError,
        >(seq![command.ack_code()]),
{
    let body = seq![command.ack_code()] + payload;
    let reply = acknowledgement(command, payload);
    lemma_frame_checksum_in_place(command.opcode(), body);
    assert(reply.len() == payload.len() + 9);
    assert(reply[5] == command.ack_code());
    assert(reply.subrange(6, 6 + command.reply_payload_len()) =~= payload);
}

/// A reply that carries the command's error code is reported as a failed
/// command.
pub proof fn lemma_refusal_is_reported(command: SWDCommand)
    ensures
        command.decode(refusal(command)) == Err::<Seq<u8>, FrameError>(FrameError::CommandFailed),
{
    let reply = refusal(command);
    lemma_frame_checksum_in_place(command.opcode(), seq![command.error_code()]);
    assert(reply.len() == 9);
    assert(reply[5] == command.error_code());
}

/// A reply whose checksum byte was changed is rejected, whatever else it
/// holds.
pub proof fn lemma_damaged_checksum_is_rejected(command: SWDCommand, reply: Seq<u8>, byte: u8)
    requires
        reply.len() >= 9,
        command.decode(reply) is Ok,
        byte != reply[reply.len() - 3],
    ensures
        command.decode(reply.update(reply.len() - 3, byte)) == Err::<Seq<u8>, FrameError>(
            FrameError::ChecksumMismatch,
        ),
{
    let damaged = reply.update(reply.len() - 3, byte);
    assert(checksum_span(damaged, damaged.len() as int) =~= checksum_span(
        reply,
        reply.len() as int,
    ));
}

/// Whether two commands ask for the same thing.
pub open spec fn same_request(a: SWDCommand, b: SWDCommand) -> bool {
    match (a, b) {
        (SWDCommand::Halt, SWDCommand::Halt) => true,
        (SWDCommand::Resume, SWDCommand::Resume) => true,
        (
            SWDCommand::ReadBytes { start_address: a1, length: n1 },
            SWDCommand::ReadBytes { start_address: a2, length: n2 },
        ) => a1 == a2 && n1 == n2,
        (
            SWDCommand::ReadWord { start_address: a1 },
            SWDCommand::ReadWord { start_address: a2 },
        ) => a1 == a2,
        (
            SWDCommand::ReadWords { start_address: a1, length: n1 },
            SWDCommand::ReadWords { start_address: a2, length: n2 },
        ) => a1 == a2 && n1 == n2,
        (
            SWDCommand::Write { write_address: a1, write_data: d1 },
            SWDCommand::Write { write_address: a2, write_data: d2 },
        ) => a1 == a2 && d1@ == d2@,
        _ => false,
    }
}

/// Four bytes, most significant first, stand for one value only.
pub proof fn lemma_be32_injective(a: u32, b: u32)
    requires
        be32(a) == be32(b),
    ensures
        a == b,
{
    let a0 = ((a >> 24) & 0xff) as u8;
    let a1 = ((a >> 16) & 0xff) as u8;
    let a2 = ((a >> 8) & 0xff) as u8;
    let a3 = (a & 0xff) as u8;
    let b0 = ((b >> 24) & 0xff) as u8;
    let b1 = ((b >> 16) & 0xff) as u8;
    let b2 = ((b >> 8) & 0xff) as u8;
    let b3 = (b & 0xff) as u8;
    assert(a0 == be32(a)[0] && a1 == be32(a)[1] && a2 == be32(a)[2] && a3 == be32(a)[3]);
    assert(b0 == be32(b)[0] && b1 == be32(b)[1] && b2 == be32(b)[2] && b3 == be32(b)[3]);
    assert(a == b) by (bit_vector)
        requires
            ((a >> 24) & 0xff) as u8 == ((b >> 24) & 0xff) as u8,
            ((a >> 16) & 0xff) as u8 == ((b >> 16) & 0xff) as u8,
            ((a >> 8) & 0xff) as u8 == ((b >> 8) & 0xff) as u8,
            (a & 0xff) as u8 == (b & 0xff) as u8,
    ;
}

/// Two bytes, most significant first, stand for one value below 65536 only.
pub proof fn lemma_be16_injective(a: u32, b: u32)
    requires
        a < 0x1_0000,
        b < 0x1_0000,
        be16(a) == be16(b),
    ensures
        a == b,
{
    assert(((a >> 8) & 0xff) as u8 == be16(a)[0] && (a & 0xff) as u8 == be16(a)[1]);
    assert(((b >> 8) & 0xff) as u8 == be16(b)[0] && (b & 0xff) as u8 == be16(b)[1]);
    assert(a == b) by (bit_vector)
        requires
            a < 0x1_0000,
            b < 0x1_0000,
            ((a >> 8) & 0xff) as u8 == ((b >> 8) & 0xff) as u8,
            (a & 0xff) as u8 == (b & 0xff) as u8,
    ;
}

/// A frame holds its opcode and its payload: equal frames carry equal
/// payloads under equal opcodes.
pub proof fn lemma_frame_determines_payload(
    opcode_a: u8,
    payload_a: Seq<u8>,
    opcode_b: u8,
    payload_b: Seq<u8>,
)
    requires
        frame_bytes(opcode_a, payload_a) == frame_bytes(opcode_b, payload_b),
    ensures
        opcode_a == opcode_b,
        payload_a == payload_b,
{
    let frame_a = frame_bytes(opcode_a, payload_a);
    let frame_b = frame_bytes(opcode_b, payload_b);
    assert(frame_a.len() == payload_a.len() + 8);
    assert(frame_b.len() == payload_b.len() + 8);
    assert(frame_a[4] == opcode_a && frame_b[4] == opcode_b);
    assert(frame_a.subrange(5, 5 + payload_a.len() as int) =~= payload_a);
    assert(frame_b.subrange(5, 5 + payload_b.len() as int) =~= payload_b);
}

/// The frame of an encodable command is the frame of no other request: two
/// encodable commands with the same frame ask for the same thing.
pub proof fn lemma_frame_identifies_command(a: SWDCommand, b: SWDCommand)
    requires
        a.encodable(),
        b.encodable(),
        a.frame() == b.frame(),
    ensures
        same_request(a, b),
{
    lemma_frame_determines_payload(
        a.opcode(),
        a.request_payload(),
        b.opcode(),
        b.request_payload(),
    );
    let pa = a.request_payload();
    let pb = b.request_payload();
    match (a, b) {
        (
            SWDCommand::ReadBytes { start_address: a1, length: n1 },
            SWDCommand::ReadBytes { start_address: a2, length: n2 },
        ) => {
            assert(pa.subrange(0, 4) =~= be32(a1) && pb.subrange(0, 4) =~= be32(a2));
            assert(pa.subrange(4, 6) =~= be16(n1) && pb.subrange(4, 6) =~= be16(n2));
            lemma_be32_injective(a1, a2);
            lemma_be16_injective(n1, n2);
        },
        (
            SWDCommand::ReadWord { start_address: a1 },
            SWDCommand::ReadWord { start_address: a2 },
        ) => {
            lemma_be32_injective(a1, a2);
        },
        (
            SWDCommand::ReadWords { start_address: a1, length: n1 },
            SWDCommand::ReadWords { start_address: a2, length: n2 },
        ) => {
            assert(pa.subrange(0, 4) =~= be32(a1) && pb.subrange(0, 4) =~= be32(a2));
            assert(pa.subrange(4, 6) =~= be16(n1) && pb.subrange(4, 6) =~= be16(n2));
            lemma_be32_injective(a1, a2);
            lemma_be16_injective(n1, n2);
        },
        (
            SWDCommand::Write { write_address: a1, write_data: d1 },
            SWDCommand::Write { write_address: a2, write_data: d2 },
        ) => {
            assert(pa.subrange(0, 4) =~= be32(a1) && pb.subrange(0, 4) =~= be32(a2));
            assert(pa.subrange(4, pa.len() as int) =~= d1@);
            assert(pb.subrange(4, pb.len() as int) =~= d2@);
            lemma_be32_injective(a1, a2);
        },
        _ => {},
    }
}

impl SWDCommand {
    /// Whether the command fits a frame.
    pub fn is_encodable(&self) -> (ok: bool)
        ensures
            ok == self.encodable(),
    {
        match self {
            SWDCommand::ReadBytes { length, .. } => *length as usize
                <= ProtocolHandler::MAX_DATA_LENGTH,
            SWDCommand::ReadWords { length, .. } => *length as u64
                * ProtocolHandler::WORD_SIZE as u64 <= ProtocolHandler::MAX_DATA_LENGTH as u64,
            SWDCommand::Write { write_data, .. } => write_data.len()
                <= ProtocolHandler::MAX_DATA_LENGTH,
            _ => true,
        }
    }

    /// The text that reports a failure of this command.
    pub fn failure_message(&self, error: FrameError) -> (text: String)
        ensures
            text@ == self.failure_text(error),
    {
        match error {
            FrameError::Truncated => "Truncated response".to_string(),
            FrameError::ChecksumMismatch => "CRC mismatch".to_string(),
            FrameError::PayloadTooLarge => "Length exceeds maximum allowed value".to_string(),
            FrameError::CommandFailed => match self {
                SWDCommand::Halt => "Halt command failed".to_string(),
                SWDCommand::Resume => "Resume command failed".to_string(),
                SWDCommand::Write { .. } => "Write command failed".to_string(),
                _ => "Read command failed".to_string(),
            },
            FrameError::UnknownResponse => match self {
                SWDCommand::Halt => "Unknown response to Halt command".to_string(),
                SWDCommand::Resume => "Unknown response to Resume command".to_string(),
                SWDCommand::Write { .. } => "Unknown response to Write command".to_string(),
                _ => "Unknown response to Read command".to_string(),
            },
        }
    }
}

impl ProtocolHandler {
    /// The request frame of the handler's command.
    pub fn write_frame(&self) -> (frame: Vec<u8>)
        requires
            self.command().encodable(),
        ensures
            frame@ == self.command().frame(),
            declared_length(frame@) == frame@.len() - 6,
    {
        let mut data: Vec<u8> = Vec::new();
        data.push(0xff);
        data.push(0xf9);
        data.push(0x00);
        data.push(0x00);
        let ghost opcode = self.command.opcode();
        let ghost payload = self.command.request_payload();
        match &self.command {
            SWDCommand::Halt => {
                data.push(Self::HALT_COMMAND);
            },
            SWDCommand::Resume => {
                data.push(Self::RESUME_COMMAND);
            },
            SWDCommand::ReadBytes { start_address, length } => {
                data.push(Self::READ_BYTES_COMMAND);
                push_be32(&mut data, *start_address);
                push_be16(&mut data, *length);
            },
            SWDCommand::ReadWord { start_address } => {
                data.push(Self::READ_WORD);
                push_be32(&mut data, *start_address);
            },
            SWDCommand::ReadWords { start_address, length } => {
                data.push(Self::READ_WORDS_COMMAND);
                push_be32(&mut data, *start_address);
                push_be16(&mut data, *length);
            },
            SWDCommand::Write { write_address, write_data } => {
                data.push(Self::WRITE_COMMAND);
                push_be32(&mut data, *write_address);
                let ghost head = data@;
                let mut i: usize = 0;
                while i < write_data.len()
                    invariant
                        i <= write_data.len(),
                        data@ == head + write_data@.take(i as int),
                    decreases write_data.len() - i,
                {
                    data.push(write_data[i]);
                    i = i + 1;
                    assert(data@ =~= head + write_data@.take(i as int));
                }
                assert(write_data@.take(i as int) =~= write_data@);
            },
        }
        assert(data@ =~= seq![0xffu8, 0xf9u8, 0x00u8, 0x00u8, opcode] + payload);
        proof {
            lemma_frame_length(opcode, payload);
        }
        Self::seal(data, Ghost(opcode), Ghost(payload))
    }

    /// Closes a frame whose header, length placeholder, opcode and payload
    /// are written: appends the checksum placeholder and the footer, then
    /// fills in the length and the checksum.
    fn seal(data: Vec<u8>, opcode: Ghost<u8>, payload: Ghost<Seq<u8>>) -> (frame: Vec<u8>)
        requires
            data@ == seq![0xffu8, 0xf9u8, 0x00u8, 0x00u8, opcode@] + payload@,
            payload@.len() + 2 < 65536,
        ensures
            frame@ == frame_bytes(opcode@, payload@),
    {
        let mut data = data;
        let ghost written = data@;
        data.push(0x00);
        data.push(0xf5);
        data.push(0xe7);
        let data_len = data.len();
        let length: usize = data_len - 6;
        data.set(2, (length / 256) as u8);
        data.set(3, (length % 256) as u8);
        let ghost covered = covered_bytes(opcode@, payload@);
        assert(checksum_span(data@, data_len as int) =~= covered) by {
            assert(data@.subrange(2, data_len - 3).len() == covered.len());
            assert forall|i: int| 0 <= i < covered.len() implies data@.subrange(
                2,
                data_len - 3,
            )[i] == covered[i] by {
                if i >= 2 {
                    assert(data@[i + 2] == written[i + 2]);
                }
            }
        }
        let crc = Self::compute_crc(data.as_slice(), data_len);
        data.set(data_len - 3, crc);
        assert(data@ =~= frame_bytes(opcode@, payload@)) by {
            let want = frame_bytes(opcode@, payload@);
            assert(want.len() == data@.len());
            assert forall|i: int| 0 <= i < want.len() implies data@[i] == want[i] by {
                if 2 <= i < data_len - 3 {
                    assert(want[i] == covered[i - 2]);
                    if i >= 4 {
                        assert(data@[i] == written[i]);
                    }
                }
            }
        }
        data
    }

    /// The request frame of the handler's command, or the refusal to build
    /// one for a command that does not fit a frame.
    pub fn try_write_frame(&self) -> (r: Result<Vec<u8>, FrameError>)
        ensures
            self.command().encodable() ==> r is Ok && r->Ok_0@ == self.command().frame(),
            !self.command().encodable() ==> r == Err::<Vec<u8>, FrameError>(
                FrameError::PayloadTooLarge,
            ),
    {
        if self.command.is_encodable() {
            Ok(self.write_frame())
        } else {
            Err(FrameError::PayloadTooLarge)
        }
    }

    /// Classifies a reply buffer: the data or acknowledgement it carries, or
    /// the reason why it carries none.
    pub fn decode_frame(&self, data: &[u8]) -> (r: Result<Vec<u8>, FrameError>)
        ensures
            match self.command().decode(data@) {
                Ok(payload) => r is Ok && r->Ok_0@ == payload,
                Err(error) => r == Err::<Vec<u8>, FrameError>(error),
            },
    {
        let n = data.len();
        if n < 9 {
            return Err(FrameError::Truncated);
        }
        let crc = Self::compute_crc(data, n);
        if crc != data[n - 3] {
            return Err(FrameError::ChecksumMismatch);
        }
        let code = data[Self::ACK_OFFSET];
        let (ack, error, carried): (u8, u8, Option<u64>) = match &self.command {
            SWDCommand::Halt => (Self::HALT_ACK, Self::HALT_ERROR, None),
            SWDCommand::Resume => (Self::RESUME_ACK, Self::RESUME_ERROR, None),
            SWDCommand::Write { .. } => (Self::WRITE_ACK, Self::WRITE_ERROR, None),
            SWDCommand::ReadBytes { length, .. } => (
                Self::READ_ACK,
                Self::READ_ERROR,
                Some(*length as u64),
            ),
            SWDCommand::ReadWord { .. } => (Self::READ_ACK, Self::READ_ERROR, Some(4)),
            SWDCommand::ReadWords { length, .. } => (
                Self::READ_ACK,
                Self::READ_ERROR,
                Some(*length as u64 * 4),
            ),
        };
        if code == error {
            return Err(FrameError::CommandFailed);
        }
        if code != ack {
            return Err(FrameError::UnknownResponse);
        }
        match carried {
            None => {
                let mut out: Vec<u8> = Vec::new();
                out.push(ack);
                assert(out@ =~= seq![ack]);
                Ok(out)
            },
            Some(wanted) => {
                if (n as u64) < 9 + wanted {
                    return Err(FrameError::Truncated);
                }
                let end: usize = 6 + wanted as usize;
                let part = vstd::slice::slice_subrange(data, 6, end);
                Ok(vstd::slice::slice_to_vec(part))
            },
        }
    }

    /// Classifies a reply buffer like [`ProtocolHandler::decode_frame`], with
    /// the failure as the text that reports it.
    pub fn read_frame(&self, data: &[u8]) -> (r: Result<Vec<u8>, String>)
        ensures
            match self.command().decode(data@) {
                Ok(payload) => r is Ok && r->Ok_0@ == payload,
                Err(error) => r is Err && r->Err_0@ == self.command().failure_text(error),
            },
    {
        match self.decode_frame(data) {
            Ok(payload) => Ok(payload),
            Err(error) => Err(self.command.failure_message(error)),
        }
    }
}


} // verus!
