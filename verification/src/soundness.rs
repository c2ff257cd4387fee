//! What a verification run proves about the flash: a run reports success
//! exactly when every chunk that was read back, brought to the requested
//! length, held the bytes that the image expects at its place.

use crate::elf_reader::SectionView;
use crate::verification::{
    absorb, addressable, answers_at, byte_mismatches, chunk_len, final_report,
    lemma_equal_bytes_match, lemma_padded, padded, pending, record_section, run, settle,
    transcript, ByteMismatch, ReadReply, ReportView, RunState, CHUNK_SIZE,
};
use vstd::prelude::*;

verus! {

/// Whether every section holds as many expected bytes as its size says, and
/// every byte of it has a 32-bit address.
pub open spec fn well_formed(sections: Seq<SectionView>) -> bool {
    forall|i: int|
        0 <= i < sections.len() ==> (#[trigger] sections[i]).data.len() == sections[i].size
            && addressable(sections[i])
}

/// The addresses of the sections, in their order.
pub open spec fn addresses(sections: Seq<SectionView>) -> Seq<u32> {
    Seq::new(sections.len(), |i: int| sections[i].address)
}

/// Whether a reply to the pending request of `state` holds, once padded, the
/// bytes that the image expects at the requested place.
pub open spec fn faithful_reply(sections: Seq<SectionView>, state: RunState, reply: ReadReply)
    -> bool {
    let section = sections[state.index];
    let wanted = chunk_len(section.size, state.offset);
    reply matches Ok(chunk) && padded(chunk@, wanted as int) == section.data.subrange(
        state.offset,
        state.offset + wanted,
    )
}

/// Whether every reply of a conversation is faithful.
pub open spec fn faithful(sections: Seq<SectionView>, replies: Seq<ReadReply>) -> bool {
    forall|t: int|
        0 <= t < replies.len() ==> #[trigger] faithful_at(sections, replies, t)
}

/// Whether reply `t` of a conversation is faithful.
pub open spec fn faithful_at(sections: Seq<SectionView>, replies: Seq<ReadReply>, t: int) -> bool {
    faithful_reply(sections, run(sections, replies.take(t)), replies[t])
}

/// Whether a conversation asks no more than the run wants: every reply
/// answers a pending request.
pub open spec fn requested(sections: Seq<SectionView>, replies: Seq<ReadReply>) -> bool {
    forall|t: int|
        0 <= t < replies.len() ==> pending(sections, #[trigger] run(sections, replies.take(t)))
            is Some
}

/// The shape that every state of a run has: the index and the offset are in
/// range, and as many bytes were read back as the offset says.
pub open spec fn shaped(sections: Seq<SectionView>, state: RunState) -> bool {
    &&& 0 <= state.index <= sections.len()
    &&& state.index < sections.len() ==> 0 <= state.offset <= sections[state.index].size
    &&& state.index < sections.len() ==> state.flash.len() == state.offset
    &&& state.index < sections.len() ==> state.offset % 4 == 0 || state.offset
        == sections[state.index].size
    &&& state.aborted ==> state.report.errors.len() > 0
}

/// A state in which everything read back so far matched.
pub open spec fn matching(sections: Seq<SectionView>, state: RunState) -> bool {
    &&& !state.aborted
    &&& state.report.errors.len() == 0
    &&& state.report.mismatched_sections =~= Map::<u32, Seq<ByteMismatch>>::empty()
    &&& state.report.verified_sections == addresses(sections.take(state.index))
    &&& state.report.success
    &&& state.report.total_sections == 0
    &&& state.index < sections.len() ==> state.flash == sections[state.index].data.take(
        state.offset,
    )
}

/// A state in which something read back did not match, or could not be
/// read.
pub open spec fn deviating(sections: Seq<SectionView>, state: RunState) -> bool {
    ||| !state.report.clean()
    ||| state.index < sections.len() && state.flash != sections[state.index].data.take(
        state.offset,
    )
}

/// A read-back of the right length that differs from the expected bytes has
/// at least one mismatch.
pub proof fn lemma_different_bytes_mismatch(address: u32, expected: Seq<u8>, actual: Seq<u8>)
    requires
        expected.len() == actual.len(),
        expected != actual,
    ensures
        byte_mismatches(address, expected, actual).len() > 0,
{
    if byte_mismatches(address, expected, actual).len() == 0 {
        assert(expected.take(expected.len() as int) =~= expected);
        assert forall|i: int| 0 <= i < expected.len() implies expected[i] == actual[i] by {
            lemma_no_mismatch_means_equal(address, expected, actual, expected.len() as int, i);
        }
        assert(expected =~= actual);
    }
}

/// Where the first `n` bytes give no mismatch, each of them equals the
/// expected one.
proof fn lemma_no_mismatch_means_equal(
    address: u32,
    expected: Seq<u8>,
    actual: Seq<u8>,
    n: int,
    i: int,
)
    requires
        0 <= i < n <= expected.len(),
        byte_mismatches(address, expected.take(n), actual).len() == 0,
    ensures
        expected[i] == actual[i],
    decreases n,
{
    let head = expected.take(n);
    assert(head.take(n - 1) =~= expected.take(n - 1));
    assert(head[n - 1] == expected[n - 1]);
    if i < n - 1 {
        lemma_no_mismatch_means_equal(address, expected, actual, n - 1, i);
    }
}

/// Settling keeps the shape of a state, and leaves it at a section that
/// still needs a request, or behind the last section.
pub proof fn lemma_settle_shaped(sections: Seq<SectionView>, state: RunState)
    requires
        shaped(sections, state),
    ensures
        shaped(sections, settle(sections, state)),
        pending(sections, settle(sections, state)) is Some ==> settle(sections, state).offset
            < sections[settle(sections, state).index].size,
    decreases sections.len() - state.index,
{
    if !state.aborted && 0 <= state.index < sections.len() && state.offset
        >= sections[state.index].size {
        let next = RunState {
            index: state.index + 1,
            offset: 0,
            flash: Seq::empty(),
            report: record_section(state.report, sections[state.index], state.flash),
            aborted: false,
        };
        lemma_settle_shaped(sections, next);
    }
}

/// Settling keeps a matching state matching.
proof fn lemma_settle_matching(sections: Seq<SectionView>, state: RunState)
    requires
        well_formed(sections),
        shaped(sections, state),
        matching(sections, state),
    ensures
        matching(sections, settle(sections, state)),
    decreases sections.len() - state.index,
{
    if 0 <= state.index < sections.len() && state.offset >= sections[state.index].size {
        let section = sections[state.index];
        assert(state.flash =~= section.data);
        lemma_equal_bytes_match(section.address, section.data, section.data);
        let next = RunState {
            index: state.index + 1,
            offset: 0,
            flash: Seq::empty(),
            report: record_section(state.report, section, state.flash),
            aborted: false,
        };
        assert(next.report.verified_sections =~= addresses(sections.take(next.index))) by {
            assert(sections.take(next.index)[state.index] == section);
        }
        if next.index < sections.len() {
            assert(next.flash =~= sections[next.index].data.take(0));
        }
        lemma_settle_matching(sections, next);
    }
}

/// Settling keeps a deviating state deviating.
proof fn lemma_settle_deviating(sections: Seq<SectionView>, state: RunState)
    requires
        well_formed(sections),
        shaped(sections, state),
        deviating(sections, state),
    ensures
        deviating(sections, settle(sections, state)),
        !settle(sections, state).report.clean() || pending(sections, settle(sections, state))
            is Some,
    decreases sections.len() - state.index,
{
    if !state.aborted && 0 <= state.index < sections.len() && state.offset
        >= sections[state.index].size {
        let section = sections[state.index];
        let recorded = record_section(state.report, section, state.flash);
        let next = RunState {
            index: state.index + 1,
            offset: 0,
            flash: Seq::empty(),
            report: recorded,
            aborted: false,
        };
        assert(!recorded.clean()) by {
            if state.report.clean() {
                assert(section.data.take(state.offset) =~= section.data);
                lemma_different_bytes_mismatch(section.address, section.data, state.flash);
                assert(recorded.mismatched_sections.dom().contains(section.address));
            } else if state.report.errors.len() == 0 {
                let key = choose|key: u32| state.report.mismatched_sections.dom().contains(key);
                assert(recorded.mismatched_sections.dom().contains(key));
            }
        }
        lemma_settle_deviating(sections, next);
    } else if state.report.clean() {
        assert(state.index < sections.len());
    }
}

/// The state of a run has the shape of a state, after any replies.
pub proof fn lemma_run_shaped(sections: Seq<SectionView>, replies: Seq<ReadReply>)
    requires
        well_formed(sections),
    ensures
        shaped(sections, run(sections, replies)),
        pending(sections, run(sections, replies)) is Some ==> run(sections, replies).offset
            < sections[run(sections, replies).index].size,
    decreases replies.len(),
{
    if replies.len() == 0 {
        lemma_settle_shaped(sections, RunState::start());
    } else {
        let before = run(sections, replies.drop_last());
        lemma_run_shaped(sections, replies.drop_last());
        if pending(sections, before) is Some {
            let after = absorb(sections, before, replies.last());
            let wanted = chunk_len(sections[before.index].size, before.offset);
            if replies.last() is Ok {
                lemma_padded(replies.last()->Ok_0@, wanted as int);
            }
            lemma_settle_shaped(sections, after);
        }
    }
}

/// Every request of a run asks for one to four bytes of the section that is
/// being read back: it starts at a multiple of four bytes behind the
/// section's address and ends inside the section.
pub proof fn lemma_request_in_section(sections: Seq<SectionView>, replies: Seq<ReadReply>)
    requires
        well_formed(sections),
        pending(sections, run(sections, replies)) is Some,
    ensures
        ({
            let state = run(sections, replies);
            let section = sections[state.index];
            let request = pending(sections, state)->Some_0;
            &&& 0 <= state.index < sections.len()
            &&& state.offset % 4 == 0
            &&& request.0 == section.address + state.offset
            &&& 1 <= request.1 <= CHUNK_SIZE
            &&& state.offset + request.1 <= section.size
            &&& request.1 < CHUNK_SIZE ==> state.offset + request.1 == section.size
        }),
{
    lemma_run_shaped(sections, replies);
}

/// While every reply is faithful, the run stays in a matching state.
pub proof fn lemma_faithful_run_matches(sections: Seq<SectionView>, replies: Seq<ReadReply>)
    requires
        well_formed(sections),
        requested(sections, replies),
        faithful(sections, replies),
    ensures
        matching(sections, run(sections, replies)),
    decreases replies.len(),
{
    if replies.len() == 0 {
        let start = RunState::start();
        assert(start.report.verified_sections =~= addresses(sections.take(0)));
        if sections.len() > 0 {
            assert(start.flash =~= sections[0].data.take(0));
        }
        lemma_settle_matching(sections, start);
    } else {
        let earlier = replies.drop_last();
        let last = replies.len() - 1;
        assert forall|t: int| 0 <= t < earlier.len() implies #[trigger] faithful_at(
            sections,
            earlier,
            t,
        ) by {
            assert(earlier.take(t) =~= replies.take(t));
            assert(faithful_at(sections, replies, t));
        }
        assert forall|t: int| 0 <= t < earlier.len() implies pending(
            sections,
            #[trigger] run(sections, earlier.take(t)),
        ) is Some by {
            assert(earlier.take(t) =~= replies.take(t));
            assert(pending(sections, run(sections, replies.take(t))) is Some);
        }
        lemma_faithful_run_matches(sections, earlier);
        lemma_run_shaped(sections, earlier);
        let before = run(sections, earlier);
        assert(replies.take(last) =~= earlier);
        assert(faithful_at(sections, replies, last));
        assert(pending(sections, run(sections, replies.take(last))) is Some);
        let section = sections[before.index];
        let wanted = chunk_len(section.size, before.offset);
        let after = absorb(sections, before, replies.last());
        assert(after.flash =~= section.data.take(after.offset));
        lemma_settle_matching(sections, after);
    }
}

/// A conversation of faithful replies that leaves nothing to ask verifies
/// every section: the report is a success, it counts all sections, lists
/// their addresses in order, and holds no mismatch and no error.
pub proof fn lemma_matching_flash_verifies(sections: Seq<SectionView>, replies: Seq<ReadReply>)
    requires
        well_formed(sections),
        requested(sections, replies),
        faithful(sections, replies),
        pending(sections, run(sections, replies)) is None,
    ensures
        final_report(sections, run(sections, replies)) == (ReportView {
            success: true,
            total_sections: sections.len(),
            verified_sections: addresses(sections),
            mismatched_sections: Map::empty(),
            errors: Seq::empty(),
        }),
{
    lemma_faithful_run_matches(sections, replies);
    lemma_run_shaped(sections, replies);
    let end = run(sections, replies);
    assert(end.index == sections.len());
    assert(sections.take(end.index) =~= sections);
    assert(end.report.errors =~= Seq::<Seq<char>>::empty());
}

/// Once a reply was not faithful, the run stays in a deviating state.
pub proof fn lemma_unfaithful_run_deviates(
    sections: Seq<SectionView>,
    replies: Seq<ReadReply>,
    t: int,
)
    requires
        well_formed(sections),
        requested(sections, replies),
        0 <= t < replies.len(),
        !faithful_at(sections, replies, t),
    ensures
        deviating(sections, run(sections, replies)),
        !run(sections, replies).report.clean() || pending(sections, run(sections, replies))
            is Some,
    decreases replies.len(),
{
    let earlier = replies.drop_last();
    let last = replies.len() - 1;
    assert(replies.take(last) =~= earlier);
    assert forall|u: int| 0 <= u < earlier.len() implies pending(
        sections,
        #[trigger] run(sections, earlier.take(u)),
    ) is Some by {
        assert(earlier.take(u) =~= replies.take(u));
        assert(pending(sections, run(sections, replies.take(u))) is Some);
    }
    lemma_run_shaped(sections, earlier);
    let before = run(sections, earlier);
    assert(pending(sections, run(sections, replies.take(last))) is Some);
    let section = sections[before.index];
    let wanted = chunk_len(section.size, before.offset);
    let after = absorb(sections, before, replies.last());
    if replies.last() is Ok {
        lemma_padded(replies.last()->Ok_0@, wanted as int);
    }
    if t < last {
        assert(earlier.take(t) =~= replies.take(t));
        assert(!faithful_at(sections, earlier, t));
        lemma_unfaithful_run_deviates(sections, earlier, t);
        match replies.last() {
            Ok(chunk) => {
                if before.report.clean() {
                    let good = section.data.take(before.offset);
                    if after.flash == section.data.take(after.offset) {
                        assert(before.flash =~= after.flash.take(before.offset));
                        assert(good =~= section.data.take(after.offset).take(before.offset));
                    }
                }
            },
            Err(_) => {},
        }
    } else {
        match replies.last() {
            Ok(chunk) => {
                if after.flash == section.data.take(after.offset) {
                    assert(padded(chunk@, wanted as int) =~= after.flash.subrange(
                        before.offset,
                        before.offset + wanted,
                    ));
                    assert(section.data.take(after.offset).subrange(
                        before.offset,
                        before.offset + wanted,
                    ) =~= section.data.subrange(before.offset, before.offset + wanted));
                }
            },
            Err(_) => {},
        }
    }
    assert(deviating(sections, after));
    lemma_settle_shaped(sections, after);
    lemma_settle_deviating(sections, after);
}

/// A run that has nothing left to ask reports success exactly when every
/// reply was faithful.
pub proof fn lemma_success_means_matching_flash(
    sections: Seq<SectionView>,
    replies: Seq<ReadReply>,
)
    requires
        well_formed(sections),
        requested(sections, replies),
        pending(sections, run(sections, replies)) is None,
    ensures
        final_report(sections, run(sections, replies)).success <==> faithful(sections, replies),
{
    if faithful(sections, replies) {
        lemma_matching_flash_verifies(sections, replies);
    } else {
        let t = choose|t: int| 0 <= t < replies.len() && !faithful_at(sections, replies, t);
        lemma_unfaithful_run_deviates(sections, replies, t);
    }
}

/// The result of verifying well-formed sections is a success exactly when
/// every reply of the read-back was faithful: no differing flash passes, and
/// no matching flash fails.
pub proof fn lemma_verdict_is_exact<F: FnMut(u32, u32) -> ReadReply>(
    read_flash: F,
    sections: Seq<SectionView>,
    replies: Seq<ReadReply>,
)
    requires
        well_formed(sections),
        transcript(read_flash, sections, replies),
    ensures
        final_report(sections, run(sections, replies)).success <==> faithful(sections, replies),
{
    assert forall|t: int| 0 <= t < replies.len() implies pending(
        sections,
        #[trigger] run(sections, replies.take(t)),
    ) is Some by {
        assert(answers_at(read_flash, sections, replies, t));
    }
    lemma_success_means_matching_flash(sections, replies);
}

} // verus!
