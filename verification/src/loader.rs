//! The device session, reduced to its decisions: for every operation the
//! frame to send, how long to let the probe settle, and what to do with the
//! reply. The caller owns the serial channel and performs the exchange.
//!
//! Control operations and writes read whatever arrives within a short
//! window and discard it; reads wait for a reply of exactly the expected
//! length, and anything shorter is a failure.

use crate::checksum::le_bytes;
use crate::protocol::{be32, frame_bytes, FrameError, ProtocolHandler, SWDCommand};
use vstd::prelude::*;

verus! {

/// Debug register that selects the core register to transfer.
pub const DCRSR_ADDR: u32 = 0xe000_edf4;

/// Debug register that holds the transferred core register.
pub const DCRDR_ADDR: u32 = 0xe000_edf8;

/// Index of the program counter among the core registers.
pub const PC_REG_INDEX: u32 = 0x0f;

/// Milliseconds to wait after a control operation or a write.
pub const CONTROL_SETTLE_MS: u64 = 10;

/// Milliseconds to wait after a read request.
pub const READ_SETTLE_MS: u64 = 50;

/// Milliseconds to wait between selecting a register and reading it.
pub const REGISTER_SETTLE_MS: u64 = 10;

/// Size of the buffer into which a discarded reply is read.
pub const DISCARD_WINDOW: usize = 256;

/// Number of bytes that the reply to a single-word read is awaited with.
pub const WORD_REPLY_LEN: usize = 8;

/// What to do with the reply to a request.
#[derive(Clone, Copy, Debug, PartialEq, Eq, Structural)]
pub enum ReplyPolicy {
    /// Read at most `window` bytes once, ignore them and any timeout.
    Discard { window: usize },
    /// Read exactly `length` bytes; fewer are a failure.
    Exact { length: usize },
}

/// One request and the handling of its reply.
#[derive(Debug)]
pub struct Exchange {
    /// The frame to write and flush.
    pub request: Vec<u8>,
    /// Milliseconds to wait after the frame was sent.
    pub settle_ms: u64,
    /// How to read the reply.
    pub reply: ReplyPolicy,
}

/// Why a session operation cannot be carried out.
#[derive(Clone, Copy, Debug, PartialEq, Eq, Structural)]
pub enum SessionError {
    /// The request does not fit a frame.
    Frame(FrameError),
    /// The reply did not arrive, or not with the bytes that it should hold.
    ReplyTooShort,
    /// The operation is not available.
    Unavailable,
}

/// The value of the first four bytes, least significant first.
pub open spec fn le_word(bytes: Seq<u8>) -> u32 {
    (bytes[0] as int + bytes[1] as int * 0x100 + bytes[2] as int * 0x1_0000 + bytes[3] as int
        * 0x100_0000) as u32
}

/// Whether an exchange sends `command` and handles the reply as told.
pub open spec fn exchanges(
    exchange: Exchange,
    command: SWDCommand,
    settle_ms: u64,
    reply: ReplyPolicy,
) -> bool {
    &&& exchange.request@ == command.frame()
    &&& exchange.settle_ms == settle_ms
    &&& exchange.reply == reply
}

/// The four bytes of a 32-bit value, most significant first.
fn be32_bytes(value: u32) -> (bytes: Vec<u8>)
    ensures
        bytes@ == be32(value),
{
    let mut bytes: Vec<u8> = Vec::new();
    bytes.push(((value >> 24) & 0xff) as u8);
    bytes.push(((value >> 16) & 0xff) as u8);
    bytes.push(((value >> 8) & 0xff) as u8);
    bytes.push((value & 0xff) as u8);
    assert(bytes@ =~= be32(value));
    bytes
}

/// Halts the target: the reply is discarded.
pub fn halt() -> (exchange: Exchange)
    ensures
        exchanges(
            exchange,
            SWDCommand::Halt,
            CONTROL_SETTLE_MS,
            ReplyPolicy::Discard { window: DISCARD_WINDOW },
        ),
{
    Exchange {
        request: ProtocolHandler::new(SWDCommand::Halt).write_frame(),
        settle_ms: CONTROL_SETTLE_MS,
        reply: ReplyPolicy::Discard { window: DISCARD_WINDOW },
    }
}

/// Resumes the target: the reply is discarded.
pub fn resume() -> (exchange: Exchange)
    ensures
        exchanges(
            exchange,
            SWDCommand::Resume,
            CONTROL_SETTLE_MS,
            ReplyPolicy::Discard { window: DISCARD_WINDOW },
        ),
{
    Exchange {
        request: ProtocolHandler::new(SWDCommand::Resume).write_frame(),
        settle_ms: CONTROL_SETTLE_MS,
        reply: ReplyPolicy::Discard { window: DISCARD_WINDOW },
    }
}

/// Writes a word to memory, most significant byte first: the reply is
/// discarded.
pub fn write_word(address: u32, value: u32) -> (exchange: Exchange)
    ensures
        exchange.request@ == frame_bytes(ProtocolHandler::WRITE_COMMAND, be32(address) + be32(value)),
        exchange.settle_ms == CONTROL_SETTLE_MS,
        exchange.reply == (ReplyPolicy::Discard { window: DISCARD_WINDOW }),
{
    let command = SWDCommand::Write { write_address: address, write_data: be32_bytes(value) };
    Exchange {
        request: ProtocolHandler::new(command).write_frame(),
        settle_ms: CONTROL_SETTLE_MS,
        reply: ReplyPolicy::Discard { window: DISCARD_WINDOW },
    }
}

/// Reads `length` bytes of memory: the reply is awaited with exactly that
/// many bytes. More than 4096 bytes do not fit a frame.
pub fn read_bytes(address: u32, length: u32) -> (r: Result<Exchange, SessionError>)
    ensures
        length <= ProtocolHandler::MAX_DATA_LENGTH ==> r is Ok && exchanges(
            r->Ok_0,
            SWDCommand::ReadBytes { start_address: address, length },
            READ_SETTLE_MS,
            ReplyPolicy::Exact { length: length as usize },
        ),
        length > ProtocolHandler::MAX_DATA_LENGTH ==> r == Err::<Exchange, SessionError>(
            SessionError::Frame(FrameError::PayloadTooLarge),
        ),
{
    let command = SWDCommand::ReadBytes { start_address: address, length };
    match ProtocolHandler::new(command).try_write_frame() {
        Ok(request) => Ok(
            Exchange {
                request,
                settle_ms: READ_SETTLE_MS,
                reply: ReplyPolicy::Exact { length: length as usize },
            },
        ),
        Err(error) => Err(SessionError::Frame(error)),
    }
}

/// Reads one word of memory: the reply is awaited with eight bytes, of which
/// the first four hold the word.
pub fn read_word(address: u32) -> (exchange: Exchange)
    ensures
        exchanges(
            exchange,
            SWDCommand::ReadWord { start_address: address },
            READ_SETTLE_MS,
            ReplyPolicy::Exact { length: WORD_REPLY_LEN },
        ),
{
    Exchange {
        request: ProtocolHandler::new(
            SWDCommand::ReadWord { start_address: address },
        ).write_frame(),
        settle_ms: READ_SETTLE_MS,
        reply: ReplyPolicy::Exact { length: WORD_REPLY_LEN },
    }
}

/// Reads `count` words of memory: the reply is awaited with four bytes for
/// each word. More than 4096 bytes, that is more than 1024 words, do not
/// fit a frame.
pub fn read_words(address: u32, count: u32) -> (r: Result<Exchange, SessionError>)
    ensures
        count * ProtocolHandler::WORD_SIZE <= ProtocolHandler::MAX_DATA_LENGTH ==> r is Ok && exchanges(
            r->Ok_0,
            SWDCommand::ReadWords { start_address: address, length: count },
            READ_SETTLE_MS,
            ReplyPolicy::Exact { length: (count * 4) as usize },
        ),
        count * ProtocolHandler::WORD_SIZE > ProtocolHandler::MAX_DATA_LENGTH ==> r == Err::<Exchange, SessionError>(
            SessionError::Frame(FrameError::PayloadTooLarge),
        ),
{
    let command = SWDCommand::ReadWords { start_address: address, length: count };
    match ProtocolHandler::new(command).try_write_frame() {
        Ok(request) => Ok(
            Exchange {
                request,
                settle_ms: READ_SETTLE_MS,
                reply: ReplyPolicy::Exact { length: (count * 4) as usize },
            },
        ),
        Err(error) => Err(SessionError::Frame(error)),
    }
}

/// The word that a reply to a word read holds in its first four bytes,
/// least significant first. A reply of fewer than four bytes holds none.
pub fn word_from_reply(reply: &[u8]) -> (r: Result<u32, SessionError>)
    ensures
        reply@.len() >= 4 ==> r == Ok::<u32, SessionError>(le_word(reply@)),
        reply@.len() < 4 ==> r == Err::<u32, SessionError>(SessionError::ReplyTooShort),
{
    if reply.len() < 4 {
        return Err(SessionError::ReplyTooShort);
    }
    let value: u32 = reply[0] as u32 + reply[1] as u32 * 0x100 + reply[2] as u32 * 0x1_0000
        + reply[3] as u32 * 0x100_0000;
    Ok(value)
}

/// First step of reading a core register: its index is written to the
/// register selector.
pub fn select_register(reg_index: u32) -> (exchange: Exchange)
    ensures
        exchange.request@ == frame_bytes(
            ProtocolHandler::WRITE_COMMAND,
            be32(DCRSR_ADDR) + be32(reg_index),
        ),
        exchange.settle_ms == CONTROL_SETTLE_MS,
        exchange.reply == (ReplyPolicy::Discard { window: DISCARD_WINDOW }),
{
    write_word(DCRSR_ADDR, reg_index)
}

/// Second step of reading a core register, after a pause of
/// `REGISTER_SETTLE_MS`: one word is read from the register data address.
pub fn fetch_register() -> (exchange: Exchange)
    ensures
        exchanges(
            exchange,
            SWDCommand::ReadWords { start_address: DCRDR_ADDR, length: 1 },
            READ_SETTLE_MS,
            ReplyPolicy::Exact { length: 4 },
        ),
{
    let command = SWDCommand::ReadWords { start_address: DCRDR_ADDR, length: 1 };
    Exchange {
        request: ProtocolHandler::new(command).write_frame(),
        settle_ms: READ_SETTLE_MS,
        reply: ReplyPolicy::Exact { length: 4 },
    }
}

/// The reading of a core register: select it, pause, fetch it.
#[derive(Debug)]
pub struct RegisterTransfer {
    /// Writes the register's index to the register selector.
    pub select: Exchange,
    /// Milliseconds to wait between the two exchanges.
    pub pause_ms: u64,
    /// Reads one word from the register data address.
    pub fetch: Exchange,
}

/// Whether a transfer reads the core register `reg_index`.
pub open spec fn transfers(transfer: RegisterTransfer, reg_index: u32) -> bool {
    &&& transfer.select.request@ == frame_bytes(
        ProtocolHandler::WRITE_COMMAND,
        be32(DCRSR_ADDR) + be32(reg_index),
    )
    &&& transfer.select.settle_ms == CONTROL_SETTLE_MS
    &&& transfer.select.reply == (ReplyPolicy::Discard { window: DISCARD_WINDOW })
    &&& transfer.pause_ms == REGISTER_SETTLE_MS
    &&& exchanges(
        transfer.fetch,
        SWDCommand::ReadWords { start_address: DCRDR_ADDR, length: 1 },
        READ_SETTLE_MS,
        ReplyPolicy::Exact { length: 4 },
    )
}

/// The reading of a core register: its index is written to the register
/// selector and the reply discarded; after a pause one word is read from the
/// register data address.
pub fn read_register(reg_index: u32) -> (transfer: RegisterTransfer)
    ensures
        transfers(transfer, reg_index),
{
    RegisterTransfer {
        select: select_register(reg_index),
        pause_ms: REGISTER_SETTLE_MS,
        fetch: fetch_register(),
    }
}

/// The reading of the program counter, which is core register 15.
pub fn read_pc_register() -> (transfer: RegisterTransfer)
    ensures
        transfers(transfer, PC_REG_INDEX),
{
    read_register(PC_REG_INDEX)
}

/// Breakpoints are not available: the operation is refused for every
/// address.
pub fn set_breakpoint(address: u32) -> (r: Result<Exchange, SessionError>)
    ensures
        r == Err::<Exchange, SessionError>(SessionError::Unavailable),
{
    Err(SessionError::Unavailable)
}

/// What an exchange amounts to once its reply was read, or could not be
/// read. A reply that is discarded never fails the exchange, whether bytes
/// arrived, none did, or the read gave up. A reply that is awaited must have
/// arrived with exactly the awaited length; anything else fails the
/// exchange.
pub open spec fn conclusion(reply: ReplyPolicy, received: Option<Seq<u8>>) -> Result<
    Seq<u8>,
    SessionError,
> {
    match reply {
        ReplyPolicy::Discard { .. } => Ok(Seq::empty()),
        ReplyPolicy::Exact { length } => match received {
            Some(bytes) => if bytes.len() == length {
                Ok(bytes)
            } else {
                Err(SessionError::ReplyTooShort)
            },
            None => Err(SessionError::ReplyTooShort),
        },
    }
}

/// Concludes an exchange from what the read of its reply gave: the bytes
/// that arrived, or `None` where the read failed or timed out.
pub fn conclude(reply: ReplyPolicy, received: Option<Vec<u8>>) -> (r: Result<Vec<u8>, SessionError>)
    ensures
        match conclusion(
            reply,
            match received {
                Some(bytes) => Some(bytes@),
                None => None,
            },
        ) {
            Ok(bytes) => r is Ok && r->Ok_0@ == bytes,
            Err(error) => r == Err::<Vec<u8>, SessionError>(error),
        },
{
    match reply {
        ReplyPolicy::Discard { .. } => Ok(Vec::new()),
        ReplyPolicy::Exact { length } => match received {
            Some(bytes) => if bytes.len() == length {
                Ok(bytes)
            } else {
                Err(SessionError::ReplyTooShort)
            },
            None => Err(SessionError::ReplyTooShort),
        },
    }
}

impl SessionError {
    /// The text that reports the error.
    pub open spec fn text(self) -> Seq<char> {
        match self {
            SessionError::Frame(_) => "Length exceeds maximum allowed value"@,
            SessionError::ReplyTooShort => "Buffer too short to read a word"@,
            SessionError::Unavailable => "Breakpoints are not available"@,
        }
    }

    /// The text that reports the error.
    pub fn message(&self) -> (message: String)
        ensures
            message@ == self.text(),
    {
        match self {
            SessionError::Frame(_) => "Length exceeds maximum allowed value".to_string(),
            SessionError::ReplyTooShort => "Buffer too short to read a word".to_string(),
            SessionError::Unavailable => "Breakpoints are not available".to_string(),
        }
    }
}

/// A word that was sent least significant byte first is read back as it
/// was.
pub proof fn lemma_le_word_round_trip(value: u32)
    ensures
        le_word(le_bytes(value)) == value,
{
    let b0 = (value & 0xff) as u8;
    let b1 = ((value >> 8) & 0xff) as u8;
    let b2 = ((value >> 16) & 0xff) as u8;
    let b3 = ((value >> 24) & 0xff) as u8;
    assert(b0 as u32 + b1 as u32 * 0x100 + b2 as u32 * 0x1_0000 + b3 as u32 * 0x100_0000
        == value) by (bit_vector)
        requires
            b0 == (value & 0xff) as u8,
            b1 == ((value >> 8) & 0xff) as u8,
            b2 == ((value >> 16) & 0xff) as u8,
            b3 == ((value >> 24) & 0xff) as u8,
    ;
}

} // verus!
