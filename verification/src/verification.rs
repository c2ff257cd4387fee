//! The flash verifier: reads every flash section back in small chunks,
//! compares it with the bytes that the image expects, and reports every
//! difference.
//!
//! The run is modelled as a state machine over the replies of the
//! read-back: [`run`] gives the state after a sequence of replies, and
//! [`pending`] the request that the state waits for.

use crate::elf_reader::{ElfFlashVerifier, FlashSection, SectionView};
use crate::text::{decimal_text, hex8_text, push_decimal, push_hex8};
use std::collections::HashMap;
use vstd::prelude::*;
use vstd::string::StringExecFns;

verus! {

/// The largest number of bytes that one read-back request asks for.
pub const CHUNK_SIZE: u32 = 4;

/// The byte that stands for what a short read-back left out.
pub const FILL_BYTE: u8 = 0xff;

/// One byte of flash that differs from the image.
#[derive(Debug, Clone, Copy, PartialEq, Eq, Structural)]
pub struct ByteMismatch {
    pub address: u32,
    pub expected: u8,
    pub actual: u8,
}

/// The outcome of one verification run.
#[derive(Debug)]
pub struct VerificationResult {
    pub success: bool,
    pub total_sections: usize,
    pub verified_sections: Vec<u32>,
    pub mismatched_sections: HashMap<u32, Vec<ByteMismatch>>,
    pub errors: Vec<String>,
}

/// What a [`VerificationResult`] holds.
pub struct ReportView {
    pub success: bool,
    pub total_sections: nat,
    pub verified_sections: Seq<u32>,
    pub mismatched_sections: Map<u32, Seq<ByteMismatch>>,
    pub errors: Seq<Seq<char>>,
}

impl View for VerificationResult {
    type V = ReportView;

    open spec fn view(&self) -> ReportView {
        ReportView {
            success: self.success,
            total_sections: self.total_sections as nat,
            verified_sections: self.verified_sections@,
            mismatched_sections: self.mismatched_sections@.map_values(
                |m: Vec<ByteMismatch>| m@,
            ),
            errors: self.errors@.map_values(|e: String| e@),
        }
    }
}

/// One answer of the read-back.
pub type ReadReply = Result<Vec<u8>, String>;

impl ReportView {
    /// The report before anything was verified.
    pub open spec fn fresh() -> ReportView {
        ReportView {
            success: true,
            total_sections: 0,
            verified_sections: Seq::empty(),
            mismatched_sections: Map::empty(),
            errors: Seq::empty(),
        }
    }

    /// Whether the report is free of errors and of mismatches.
    pub open spec fn clean(self) -> bool {
        self.errors.len() == 0 && self.mismatched_sections.dom() =~= Set::<u32>::empty()
    }

    /// The report with one more error message.
    pub open spec fn with_error(self, message: Seq<char>) -> ReportView {
        ReportView { errors: self.errors.push(message), ..self }
    }

    /// Whether the success flag says what the report holds: no error and no
    /// mismatch.
    pub open spec fn consistent(self) -> bool {
        self.success == self.clean()
    }
}

/// The message for a read-back that failed at `address`.
pub open spec fn read_failure_text(address: u32, reason: Seq<char>) -> Seq<char> {
    "Failed to read flash at 0x"@ + hex8_text(address) + ": "@ + reason
}

/// The message for a section whose read-back has another length than its
/// expected bytes.
pub open spec fn size_mismatch_text(address: u32, expected: nat, got: nat) -> Seq<char> {
    "Size mismatch in section at 0x"@ + hex8_text(address) + ": expected "@ + decimal_text(
        expected,
    ) + " bytes, got "@ + decimal_text(got) + " bytes"@
}

/// The number of bytes that the request at `offset` of a section of `size`
/// bytes asks for: four, or what is left of the section.
pub open spec fn chunk_len(size: u32, offset: int) -> u32 {
    if size - offset < CHUNK_SIZE {
        (size - offset) as u32
    } else {
        CHUNK_SIZE
    }
}

/// A chunk brought to the requested length: cut where it is longer, filled
/// up with `0xFF` on the right where it is shorter.
pub open spec fn padded(chunk: Seq<u8>, len: int) -> Seq<u8> {
    if chunk.len() >= len {
        chunk.take(len)
    } else {
        chunk + Seq::new((len - chunk.len()) as nat, |i: int| FILL_BYTE)
    }
}

/// The differences between expected and actual bytes of a section at
/// `address`, in the order of their offsets.
pub open spec fn byte_mismatches(address: u32, expected: Seq<u8>, actual: Seq<u8>) -> Seq<
    ByteMismatch,
>
    decreases expected.len(),
{
    if expected.len() == 0 {
        Seq::empty()
    } else {
        let k = expected.len() - 1;
        let before = byte_mismatches(address, expected.take(k), actual);
        if expected[k] != actual[k] {
            before.push(
                ByteMismatch {
                    address: (address + k) as u32,
                    expected: expected[k],
                    actual: actual[k],
                },
            )
        } else {
            before
        }
    }
}

/// The report after a section was read back completely: a length that
/// differs from the expected bytes is an error; equal bytes verify the
/// section; anything else is recorded under the section's address.
pub open spec fn record_section(report: ReportView, section: SectionView, flash: Seq<u8>)
    -> ReportView {
    if flash.len() != section.data.len() {
        report.with_error(size_mismatch_text(section.address, section.data.len(), flash.len()))
    } else {
        let found = byte_mismatches(section.address, section.data, flash);
        if found.len() == 0 {
            ReportView {
                verified_sections: report.verified_sections.push(section.address),
                ..report
            }
        } else {
            ReportView {
                mismatched_sections: report.mismatched_sections.insert(section.address, found),
                ..report
            }
        }
    }
}

/// Where a verification run stands.
pub struct RunState {
    /// The index of the section that is being read back.
    pub index: int,
    /// How many bytes of it were read back.
    pub offset: int,
    /// Those bytes.
    pub flash: Seq<u8>,
    /// What was recorded of the sections before it.
    pub report: ReportView,
    /// Whether a read-back failed.
    pub aborted: bool,
}

impl RunState {
    /// The state before the first request.
    pub open spec fn start() -> RunState {
        RunState {
            index: 0,
            offset: 0,
            flash: Seq::empty(),
            report: ReportView::fresh(),
            aborted: false,
        }
    }
}

/// Closes every section that is read back completely and moves on to the
/// first one that still needs a request.
pub open spec fn settle(sections: Seq<SectionView>, state: RunState) -> RunState
    decreases sections.len() - state.index,
{
    if !state.aborted && 0 <= state.index < sections.len() && state.offset
        >= sections[state.index].size {
        settle(
            sections,
            RunState {
                index: state.index + 1,
                offset: 0,
                flash: Seq::empty(),
                report: record_section(state.report, sections[state.index], state.flash),
                aborted: false,
            },
        )
    } else {
        state
    }
}

/// The request that a state waits for: address and length. A run that is
/// aborted or has no section left waits for none.
pub open spec fn pending(sections: Seq<SectionView>, state: RunState) -> Option<(u32, u32)> {
    if !state.aborted && 0 <= state.index < sections.len() {
        Some(
            (
                (sections[state.index].address + state.offset) as u32,
                chunk_len(sections[state.index].size, state.offset),
            ),
        )
    } else {
        None
    }
}

/// The state after the pending request was answered: a chunk is padded and
/// appended, a failure is recorded and aborts the run.
pub open spec fn absorb(sections: Seq<SectionView>, state: RunState, reply: ReadReply)
    -> RunState {
    let section = sections[state.index];
    let wanted = chunk_len(section.size, state.offset);
    match reply {
        Ok(chunk) => RunState {
            offset: state.offset + wanted,
            flash: state.flash + padded(chunk@, wanted as int),
            ..state
        },
        Err(reason) => RunState {
            aborted: true,
            report: state.report.with_error(
                read_failure_text((section.address + state.offset) as u32, reason@),
            ),
            ..state
        },
    }
}

/// The state of a run after the read-back gave `replies`, in this order.
pub open spec fn run(sections: Seq<SectionView>, replies: Seq<ReadReply>) -> RunState
    decreases replies.len(),
{
    if replies.len() == 0 {
        settle(sections, RunState::start())
    } else {
        let before = run(sections, replies.drop_last());
        if pending(sections, before) is Some {
            settle(sections, absorb(sections, before, replies.last()))
        } else {
            before
        }
    }
}

/// The report that a run ends with. A finished run counts its sections; an
/// aborted one keeps the count of zero. Success is the absence of errors
/// and mismatches.
pub open spec fn final_report(sections: Seq<SectionView>, state: RunState) -> ReportView {
    ReportView {
        success: state.report.clean(),
        total_sections: if state.aborted {
            0
        } else {
            sections.len()
        },
        ..state.report
    }
}

/// Whether reply `t` is an answer of the read-back to the request that the
/// run waits for after the replies before it.
pub open spec fn answers_at<F: FnMut(u32, u32) -> ReadReply>(
    read_flash: F,
    sections: Seq<SectionView>,
    replies: Seq<ReadReply>,
    t: int,
) -> bool {
    let state = run(sections, replies.take(t));
    pending(sections, state) matches Some(request) && call_ensures(
        read_flash,
        request,
        replies[t],
    )
}

/// Whether every reply answers the request of its moment.
pub open spec fn answered<F: FnMut(u32, u32) -> ReadReply>(
    read_flash: F,
    sections: Seq<SectionView>,
    replies: Seq<ReadReply>,
) -> bool {
    forall|t: int| 0 <= t < replies.len() ==> #[trigger] answers_at(read_flash, sections, replies, t)
}

/// Whether `replies` is the whole conversation of a run: every reply answers
/// the request of its moment, and after the last one the run waits for
/// nothing.
pub open spec fn transcript<F: FnMut(u32, u32) -> ReadReply>(
    read_flash: F,
    sections: Seq<SectionView>,
    replies: Seq<ReadReply>,
) -> bool {
    answered(read_flash, sections, replies) && pending(sections, run(sections, replies)) is None
}

/// Whether every byte of a section has a 32-bit address.
pub open spec fn addressable(section: SectionView) -> bool {
    section.address + section.size <= 0x1_0000_0000
}

/// Appends a chunk of read-back to the bytes read so far, brought to the
/// requested length: a longer chunk is cut, a shorter one is filled up with
/// `0xFF` on the right.
pub fn append_padded(flash: &mut Vec<u8>, chunk: &Vec<u8>, len: u32)
    ensures
        final(flash)@ == old(flash)@ + padded(chunk@, len as int),
        final(flash)@.len() == old(flash)@.len() + len,
{
    let ghost before = flash@;
    let mut k: u32 = 0;
    while k < len
        invariant
            k <= len,
            flash@ == before + padded(chunk@, len as int).take(k as int),
        decreases len - k,
    {
        let byte = if (k as usize) < chunk.len() {
            chunk[k as usize]
        } else {
            FILL_BYTE
        };
        assert(byte == padded(chunk@, len as int)[k as int]);
        flash.push(byte);
        k = k + 1;
        assert(flash@ =~= before + padded(chunk@, len as int).take(k as int));
    }
    assert(padded(chunk@, len as int).take(len as int) =~= padded(chunk@, len as int));
}

/// The differences between a section's expected bytes and its read-back of
/// the same length, in the order of their offsets.
pub fn find_mismatches(section: &FlashSection, flash: &Vec<u8>) -> (found: Vec<ByteMismatch>)
    requires
        flash@.len() == section.data@.len(),
        section.address + section.data@.len() <= 0x1_0000_0000,
    ensures
        found@ == byte_mismatches(section.address, section.data@, flash@),
{
    let mut found: Vec<ByteMismatch> = Vec::new();
    let mut i: usize = 0;
    assert(section.data@.take(0) =~= Seq::<u8>::empty());
    while i < section.data.len()
        invariant
            i <= section.data.len(),
            flash@.len() == section.data@.len(),
            section.address + section.data@.len() <= 0x1_0000_0000,
            found@ == byte_mismatches(section.address, section.data@.take(i as int), flash@),
        decreases section.data.len() - i,
    {
        let expected = section.data[i];
        let actual = flash[i];
        proof {
            let head = section.data@.take(i + 1);
            assert(head.take(i as int) =~= section.data@.take(i as int));
            assert(head[i as int] == expected);
        }
        if expected != actual {
            found.push(
                ByteMismatch { address: (section.address as u64 + i as u64) as u32, expected, actual },
            );
        }
        i = i + 1;
    }
    assert(section.data@.take(i as int) =~= section.data@);
    found
}

/// The message for a read-back that failed at `address`.
pub fn read_failure_message(address: u32, reason: &String) -> (message: String)
    ensures
        message@ == read_failure_text(address, reason@),
{
    let mut message = String::from_str("Failed to read flash at 0x");
    push_hex8(&mut message, address);
    message.append(": ");
    message.append(reason.as_str());
    assert(message@ =~= read_failure_text(address, reason@));
    message
}

/// The message for a section whose read-back has another length than its
/// expected bytes.
pub fn size_mismatch_message(address: u32, expected: usize, got: usize) -> (message: String)
    ensures
        message@ == size_mismatch_text(address, expected as nat, got as nat),
{
    let mut message = String::from_str("Size mismatch in section at 0x");
    push_hex8(&mut message, address);
    message.append(": expected ");
    push_decimal(&mut message, expected as u64);
    message.append(" bytes, got ");
    push_decimal(&mut message, got as u64);
    message.append(" bytes");
    assert(message@ =~= size_mismatch_text(address, expected as nat, got as nat));
    message
}

impl VerificationResult {
    /// The result before anything was verified.
    pub fn new() -> (result: Self)
        ensures
            result@ == ReportView::fresh(),
    {
        let result = VerificationResult {
            success: true,
            total_sections: 0,
            verified_sections: Vec::new(),
            mismatched_sections: HashMap::new(),
            errors: Vec::new(),
        };
        assert(result@.mismatched_sections =~= Map::<u32, Seq<ByteMismatch>>::empty());
        assert(result@.errors =~= Seq::<Seq<char>>::empty());
        result
    }

    fn push_error(&mut self, message: String)
        ensures
            final(self)@ == old(self)@.with_error(message@),
    {
        self.errors.push(message);
        assert(self@.errors =~= old(self)@.errors.push(message@));
    }

    /// Records a section that was read back completely.
    fn record(&mut self, section: &FlashSection, flash: &Vec<u8>)
        requires
            flash@.len() == section.size,
            addressable(section@),
        ensures
            final(self)@ == record_section(old(self)@, section@, flash@),
    {
        broadcast use vstd::std_specs::hash::group_hash_axioms;

        if flash.len() != section.data.len() {
            self.push_error(
                size_mismatch_message(section.address, section.data.len(), flash.len()),
            );
            return ;
        }
        let found = find_mismatches(section, flash);
        if found.len() == 0 {
            self.verified_sections.push(section.address);
        } else {
            self.mismatched_sections.insert(section.address, found);
            assert(self@.mismatched_sections =~= old(self)@.mismatched_sections.insert(
                section.address,
                found@,
            ));
        }
    }

    /// Closes the result of a run: counts the sections unless the run was
    /// aborted, and derives the success flag.
    fn close(&mut self, total: usize, aborted: bool)
        requires
            old(self).total_sections == 0,
        ensures
            final(self)@ == (ReportView {
                success: old(self)@.clean(),
                total_sections: if aborted {
                    0
                } else {
                    total as nat
                },
                ..old(self)@
            }),
    {
        broadcast use vstd::std_specs::hash::group_hash_axioms;

        if !aborted {
            self.total_sections = total;
        }
        let no_errors = self.errors.len() == 0;
        let no_mismatch = self.mismatched_sections.is_empty();
        proof {
            let view = old(self)@;
            assert(self.mismatched_sections@.dom() =~= view.mismatched_sections.dom());
            assert(no_mismatch == (view.mismatched_sections.dom() =~= Set::<u32>::empty())) by {
                if no_mismatch {
                    assert(self.mismatched_sections@.dom() =~= Set::<u32>::empty());
                } else {
                    assert(!(self.mismatched_sections@ =~= Map::<u32, Vec<ByteMismatch>>::empty()));
                }
            }
        }
        self.success = no_errors && no_mismatch;
    }
}

/// A padded chunk has the requested length; it starts with the chunk as far
/// as that reaches, and every byte behind it is `0xFF`.
pub proof fn lemma_padded(chunk: Seq<u8>, len: int)
    requires
        0 <= len,
    ensures
        padded(chunk, len).len() == len,
        forall|i: int| 0 <= i < len && i < chunk.len() ==> padded(chunk, len)[i] == chunk[i],
        forall|i: int| chunk.len() <= i < len ==> padded(chunk, len)[i] == FILL_BYTE,
        chunk.len() == len ==> padded(chunk, len) == chunk,
{
    if chunk.len() == len {
        assert(padded(chunk, len) =~= chunk);
    }
}

/// Bytes that equal the expected ones up to `n` give no mismatch up to `n`.
proof fn lemma_no_mismatch_up_to(address: u32, expected: Seq<u8>, actual: Seq<u8>, n: int)
    requires
        0 <= n <= expected.len(),
        forall|i: int| 0 <= i < n ==> expected[i] == actual[i],
    ensures
        byte_mismatches(address, expected.take(n), actual) == Seq::<ByteMismatch>::empty(),
    decreases n,
{
    if n > 0 {
        lemma_no_mismatch_up_to(address, expected, actual, n - 1);
        assert(expected.take(n).take(n - 1) =~= expected.take(n - 1));
    }
}

/// A read-back that equals the expected bytes gives no mismatch.
pub proof fn lemma_equal_bytes_match(address: u32, expected: Seq<u8>, actual: Seq<u8>)
    requires
        forall|i: int| 0 <= i < expected.len() ==> expected[i] == actual[i],
    ensures
        byte_mismatches(address, expected, actual) == Seq::<ByteMismatch>::empty(),
{
    lemma_no_mismatch_up_to(address, expected, actual, expected.len() as int);
    assert(expected.take(expected.len() as int) =~= expected);
}

/// The mismatches of the first `n` bytes, where only offset `k` differs.
proof fn lemma_single_mismatch_up_to(
    address: u32,
    expected: Seq<u8>,
    actual: Seq<u8>,
    k: int,
    n: int,
)
    requires
        0 <= k < expected.len(),
        0 <= n <= expected.len(),
        expected[k] != actual[k],
        forall|i: int| 0 <= i < expected.len() && i != k ==> expected[i] == actual[i],
    ensures
        n <= k ==> byte_mismatches(address, expected.take(n), actual) == Seq::<
            ByteMismatch,
        >::empty(),
        n > k ==> byte_mismatches(address, expected.take(n), actual) == seq![
            ByteMismatch {
                address: (address + k) as u32,
                expected: expected[k],
                actual: actual[k],
            },
        ],
    decreases n,
{
    if n > 0 {
        lemma_single_mismatch_up_to(address, expected, actual, k, n - 1);
        assert(expected.take(n).take(n - 1) =~= expected.take(n - 1));
        if n - 1 == k {
            assert(byte_mismatches(address, expected.take(n), actual) =~= seq![
                ByteMismatch {
                    address: (address + k) as u32,
                    expected: expected[k],
                    actual: actual[k],
                },
            ]);
        }
    }
}

/// A read-back that differs from the expected bytes at exactly one offset
/// gives exactly one mismatch, at the section's address plus that offset.
pub proof fn lemma_single_mismatch(address: u32, expected: Seq<u8>, actual: Seq<u8>, k: int)
    requires
        0 <= k < expected.len(),
        expected[k] != actual[k],
        forall|i: int| 0 <= i < expected.len() && i != k ==> expected[i] == actual[i],
    ensures
        byte_mismatches(address, expected, actual) == seq![
            ByteMismatch {
                address: (address + k) as u32,
                expected: expected[k],
                actual: actual[k],
            },
        ],
{
    lemma_single_mismatch_up_to(address, expected, actual, k, expected.len() as int);
    assert(expected.take(expected.len() as int) =~= expected);
}

/// There are no more mismatches than bytes, and each one records a byte that
/// differs.
pub proof fn lemma_mismatches_differ(address: u32, expected: Seq<u8>, actual: Seq<u8>)
    ensures
        byte_mismatches(address, expected, actual).len() <= expected.len(),
        forall|j: int|
            0 <= j < byte_mismatches(address, expected, actual).len() ==> (
            #[trigger] byte_mismatches(address, expected, actual)[j]).expected
                != byte_mismatches(address, expected, actual)[j].actual,
    decreases expected.len(),
{
    if expected.len() > 0 {
        lemma_mismatches_differ(address, expected.take(expected.len() - 1), actual);
    }
}

/// A section whose read-back equals its expected bytes is recorded as
/// verified, and nothing else of the report changes.
pub proof fn lemma_matching_section_is_verified(report: ReportView, section: SectionView)
    ensures
        record_section(report, section, section.data) == (ReportView {
            verified_sections: report.verified_sections.push(section.address),
            ..report
        }),
{
    lemma_equal_bytes_match(section.address, section.data, section.data);
}

/// A read-back that fails ends the run at once: the report gains exactly the
/// error that names the failing address, the run waits for nothing more, and
/// the final report is no success.
pub proof fn lemma_failed_read_ends_run(
    sections: Seq<SectionView>,
    replies: Seq<ReadReply>,
    reason: String,
)
    requires
        pending(sections, run(sections, replies)) is Some,
    ensures
        ({
            let before = run(sections, replies);
            let after = run(sections, replies.push(Err(reason)));
            &&& after.aborted
            &&& after.report == before.report.with_error(
                read_failure_text(pending(sections, before)->Some_0.0, reason@),
            )
            &&& pending(sections, after) is None
            &&& !final_report(sections, after).success
            &&& final_report(sections, after).verified_sections == before.report.verified_sections
            &&& final_report(sections, after).mismatched_sections
                == before.report.mismatched_sections
        }),
{
    let before = run(sections, replies);
    let reply: ReadReply = Err(reason);
    lemma_run_push(sections, replies, reply);
    let stopped = absorb(sections, before, reply);
    assert(settle(sections, stopped) == stopped);
    assert(stopped.report.errors.len() > 0);
}

/// A run that waits for nothing ignores every further reply.
pub proof fn lemma_finished_run_is_final(
    sections: Seq<SectionView>,
    replies: Seq<ReadReply>,
    reply: ReadReply,
)
    requires
        pending(sections, run(sections, replies)) is None,
    ensures
        run(sections, replies.push(reply)) == run(sections, replies),
{
    lemma_run_push(sections, replies, reply);
}

/// One more reply extends the run by one step.
pub proof fn lemma_run_push(sections: Seq<SectionView>, replies: Seq<ReadReply>, reply: ReadReply)
    ensures
        pending(sections, run(sections, replies)) is Some ==> run(sections, replies.push(reply))
            == settle(sections, absorb(sections, run(sections, replies), reply)),
        pending(sections, run(sections, replies)) is None ==> run(sections, replies.push(reply))
            == run(sections, replies),
{
    assert(replies.push(reply).drop_last() =~= replies);
}

/// A reply that answers the pending request extends an answered
/// conversation.
proof fn lemma_answered_push<F: FnMut(u32, u32) -> ReadReply>(
    read_flash: F,
    sections: Seq<SectionView>,
    replies: Seq<ReadReply>,
    reply: ReadReply,
)
    requires
        answered(read_flash, sections, replies),
        pending(sections, run(sections, replies)) matches Some(request) && call_ensures(
            read_flash,
            request,
            reply,
        ),
    ensures
        answered(read_flash, sections, replies.push(reply)),
{
    let longer = replies.push(reply);
    assert forall|t: int| 0 <= t < longer.len() implies #[trigger] answers_at(
        read_flash,
        sections,
        longer,
        t,
    ) by {
        if t < replies.len() {
            assert(answers_at(read_flash, sections, replies, t));
            assert(longer.take(t) =~= replies.take(t));
        } else {
            assert(longer.take(t) =~= replies);
        }
    }
}

impl ElfFlashVerifier {
    /// Whether every byte of every section has a 32-bit address.
    pub fn is_addressable(&self) -> (ok: bool)
        ensures
            ok == forall|i: int|
                0 <= i < self@.sections.len() ==> addressable(#[trigger] self@.sections[i]),
    {
        let mut i: usize = 0;
        while i < self.sections.len()
            invariant
                i <= self.sections.len(),
                forall|j: int| 0 <= j < i ==> addressable(#[trigger] self@.sections[j]),
            decreases self.sections.len() - i,
        {
            let end: u64 = self.sections[i].address as u64 + self.sections[i].size as u64;
            if end > 0x1_0000_0000 {
                assert(!addressable(self@.sections[i as int]));
                return false;
            }
            i = i + 1;
        }
        true
    }

    /// Verifies the flash against the image. Every section is read back
    /// through `read_flash`, in the order of the sections and in chunks of at
    /// most four bytes; a chunk that is shorter than requested counts as
    /// filled up with `0xFF`. A section whose read-back equals its expected
    /// bytes is verified; one that differs is recorded with every differing
    /// byte; one whose expected bytes have another length than its declared
    /// size is an error. The first read-back that fails ends the run with an
    /// error that names the address.
    ///
    /// The result is the report of the run over the replies that the
    /// read-back gave.
    pub fn verify_flash<F>(&self, read_flash: F) -> (result: VerificationResult) where
        F: FnMut(u32, u32) -> ReadReply,

        requires
            forall|i: int|
                0 <= i < self@.sections.len() ==> addressable(#[trigger] self@.sections[i]),
            forall|address: u32, length: u32|
                1 <= length <= CHUNK_SIZE ==> call_requires(read_flash, (address, length)),
        ensures
            exists|replies: Seq<ReadReply>|
                #[trigger] transcript(read_flash, self@.sections, replies) && result@
                    == final_report(self@.sections, run(self@.sections, replies)),
            result@.consistent(),
    {
        let ghost sections = self@.sections;
        let mut reader = read_flash;
        let mut result = VerificationResult::new();
        let ghost mut got: Seq<ReadReply> = Seq::empty();
        let mut i: usize = 0;
        while i < self.sections.len()
            invariant
                i <= self.sections.len(),
                sections == self@.sections,
                forall|j: int| 0 <= j < sections.len() ==> addressable(#[trigger] sections[j]),
                forall|address: u32, length: u32|
                    1 <= length <= CHUNK_SIZE ==> call_requires(reader, (address, length)),
                reader == read_flash,
                answered(reader, sections, got),
                run(sections, got) == settle(
                    sections,
                    RunState {
                        index: i as int,
                        offset: 0,
                        flash: Seq::empty(),
                        report: result@,
                        aborted: false,
                    },
                ),
                result.total_sections == 0,
            decreases self.sections.len() - i,
        {
            let section = &self.sections[i];
            assert(section@ == sections[i as int]);
            assert(addressable(sections[i as int]));
            let mut flash_data: Vec<u8> = Vec::new();
            let mut offset: u32 = 0;
            while offset < section.size
                invariant
                    i < self.sections.len(),
                    sections == self@.sections,
                    section@ == sections[i as int],
                    addressable(section@),
                    offset <= section.size,
                    flash_data@.len() == offset,
                    forall|address: u32, length: u32|
                        1 <= length <= CHUNK_SIZE ==> call_requires(reader, (address, length)),
                    reader == read_flash,
                    answered(reader, sections, got),
                    run(sections, got) == settle(
                        sections,
                        RunState {
                            index: i as int,
                            offset: offset as int,
                            flash: flash_data@,
                            report: result@,
                            aborted: false,
                        },
                    ),
                    result.total_sections == 0,
                decreases section.size - offset,
            {
                let remaining = section.size - offset;
                let chunk_size = if remaining < CHUNK_SIZE {
                    remaining
                } else {
                    CHUNK_SIZE
                };
                let current_addr = section.address + offset;
                let ghost here = RunState {
                    index: i as int,
                    offset: offset as int,
                    flash: flash_data@,
                    report: result@,
                    aborted: false,
                };
                assert(settle(sections, here) == here);
                assert(pending(sections, here) == Some((current_addr, chunk_size)));
                let reply = reader(current_addr, chunk_size);
                proof {
                    lemma_answered_push(reader, sections, got, reply);
                    lemma_run_push(sections, got, reply);
                    got = got.push(reply);
                }
                match reply {
                    Ok(chunk) => {
                        append_padded(&mut flash_data, &chunk, chunk_size);
                    },
                    Err(reason) => {
                        result.push_error(read_failure_message(current_addr, &reason));
                        let ghost stopped = absorb(sections, here, reply);
                        assert(stopped.report == result@);
                        assert(settle(sections, stopped) == stopped);
                        result.close(0, true);
                        assert(pending(sections, stopped) is None);
                        assert(transcript(read_flash, sections, got));
                        assert(result@ == final_report(sections, run(sections, got)));
                        return result;
                    },
                }
                offset = offset + chunk_size;
            }
            let ghost full = RunState {
                index: i as int,
                offset: offset as int,
                flash: flash_data@,
                report: result@,
                aborted: false,
            };
            result.record(section, &flash_data);
            assert(settle(sections, full) == settle(
                sections,
                RunState {
                    index: i + 1,
                    offset: 0,
                    flash: Seq::empty(),
                    report: result@,
                    aborted: false,
                },
            ));
            i = i + 1;
        }
        let ghost last = RunState {
            index: i as int,
            offset: 0,
            flash: Seq::empty(),
            report: result@,
            aborted: false,
        };
        assert(settle(sections, last) == last);
        assert(pending(sections, last) is None);
        result.close(self.sections.len(), false);
        assert(transcript(read_flash, sections, got));
        assert(result@ == final_report(sections, run(sections, got)));
        result
    }
}


} // verus!
