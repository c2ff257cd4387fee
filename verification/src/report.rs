//! The text of a verification report, line by line. The lines are returned,
//! not printed. Only the first five mismatches of a section are shown; the
//! result itself keeps them all.

use crate::text::{decimal_text, hex2_text, hex8_text, push_decimal, push_hex2, push_hex8};
use crate::verification::{ByteMismatch, ReportView, VerificationResult};
use vstd::prelude::*;
use vstd::string::StringExecFns;

verus! {

/// How many mismatches of one section the report shows.
pub const SHOWN_MISMATCHES: usize = 5;

/// The line that shows one mismatch.
pub open spec fn mismatch_line_text(mismatch: ByteMismatch) -> Seq<char> {
    "    0x"@ + hex8_text(mismatch.address) + ": expected 0x"@ + hex2_text(mismatch.expected)
        + ", got 0x"@ + hex2_text(mismatch.actual)
}

/// The line that opens the block of a mismatched section.
pub open spec fn section_line_text(address: u32, count: nat) -> Seq<char> {
    "  Section 0x"@ + hex8_text(address) + ": "@ + decimal_text(count) + " mismatches"@
}

/// The line that stands for the mismatches that are not shown.
pub open spec fn more_line_text(hidden: nat) -> Seq<char> {
    "    ... and "@ + decimal_text(hidden) + " more"@
}

/// How many mismatches of `count` are shown.
pub open spec fn shown(count: nat) -> nat {
    if count > SHOWN_MISMATCHES {
        SHOWN_MISMATCHES as nat
    } else {
        count
    }
}

/// The block of a mismatched section: its opening line, its first five
/// mismatches, and a line that counts the rest where there is one.
pub open spec fn section_block_text(address: u32, mismatches: Seq<ByteMismatch>) -> Seq<
    Seq<char>,
> {
    seq![section_line_text(address, mismatches.len())] + Seq::new(
        shown(mismatches.len()),
        |i: int| mismatch_line_text(mismatches[i]),
    ) + if mismatches.len() > SHOWN_MISMATCHES {
        seq![more_line_text((mismatches.len() - SHOWN_MISMATCHES) as nat)]
    } else {
        Seq::empty()
    }
}

/// The lines that open a report: title, the three counts, and every error
/// under its own heading.
pub open spec fn summary_text(report: ReportView) -> Seq<Seq<char>> {
    seq![
        "\n=== Flash Verification Report ==="@,
        "Total sections: "@ + decimal_text(report.total_sections),
        "Verified sections: "@ + decimal_text(report.verified_sections.len()),
        "Failed sections: "@ + decimal_text(report.mismatched_sections.dom().len()),
    ] + if report.errors.len() > 0 {
        seq!["\nErrors:"@] + report.errors.map_values(|e: Seq<char>| "  \u{2022} "@ + e)
    } else {
        Seq::empty()
    }
}

/// The line that closes a report.
pub open spec fn verdict_text(success: bool) -> Seq<char> {
    if success {
        "\nOverall result: PASS"@
    } else {
        "\nOverall result: FAIL"@
    }
}

/// The views of a list of lines.
pub open spec fn line_views(lines: Seq<String>) -> Seq<Seq<char>> {
    lines.map_values(|line: String| line@)
}

fn counted_line(label: &str, count: usize) -> (line: String)
    ensures
        line@ == label@ + decimal_text(count as nat),
{
    let mut line = String::from_str(label);
    push_decimal(&mut line, count as u64);
    line
}

fn mismatch_line(mismatch: &ByteMismatch) -> (line: String)
    ensures
        line@ == mismatch_line_text(*mismatch),
{
    let mut line = String::from_str("    0x");
    push_hex8(&mut line, mismatch.address);
    line.append(": expected 0x");
    push_hex2(&mut line, mismatch.expected);
    line.append(", got 0x");
    push_hex2(&mut line, mismatch.actual);
    assert(line@ =~= mismatch_line_text(*mismatch));
    line
}

/// The block of a mismatched section.
pub fn section_block(address: u32, mismatches: &Vec<ByteMismatch>) -> (lines: Vec<String>)
    ensures
        line_views(lines@) == section_block_text(address, mismatches@),
{
    let count = mismatches.len();
    let mut lines: Vec<String> = Vec::new();
    let mut head = String::from_str("  Section 0x");
    push_hex8(&mut head, address);
    head.append(": ");
    push_decimal(&mut head, count as u64);
    head.append(" mismatches");
    assert(head@ =~= section_line_text(address, count as nat));
    lines.push(head);
    let limit = if count > SHOWN_MISMATCHES {
        SHOWN_MISMATCHES
    } else {
        count
    };
    let ghost first = seq![section_line_text(address, count as nat)];
    assert(line_views(lines@) =~= first);
    let mut i: usize = 0;
    while i < limit
        invariant
            i <= limit <= count,
            count == mismatches@.len(),
            limit == shown(count as nat),
            first.len() == 1,
            line_views(lines@) == first + Seq::new(
                i as nat,
                |k: int| mismatch_line_text(mismatches@[k]),
            ),
        decreases limit - i,
    {
        let ghost before = line_views(lines@);
        let ghost shown_before = Seq::new(i as nat, |k: int| mismatch_line_text(mismatches@[k]));
        let line = mismatch_line(&mismatches[i]);
        lines.push(line);
        i = i + 1;
        proof {
            let after = first + Seq::new(i as nat, |k: int| mismatch_line_text(mismatches@[k]));
            assert(line_views(lines@) =~= before.push(line@));
            assert(after.len() == before.len() + 1);
            assert forall|k: int| 0 <= k < after.len() implies before.push(line@)[k]
                == after[k] by {
                if k >= 1 && k < before.len() {
                    assert(before[k] == shown_before[k - 1]);
                }
            }
            assert(before.push(line@) =~= after);
        }
    }
    if count > SHOWN_MISMATCHES {
        let mut more = String::from_str("    ... and ");
        push_decimal(&mut more, (count - SHOWN_MISMATCHES) as u64);
        more.append(" more");
        assert(more@ =~= more_line_text((count - SHOWN_MISMATCHES) as nat));
        lines.push(more);
    }
    assert(line_views(lines@) =~= section_block_text(address, mismatches@));
    lines
}

impl VerificationResult {
    /// The lines that open the report of this result.
    pub fn summary_lines(&self) -> (lines: Vec<String>)
        ensures
            line_views(lines@) == summary_text(self@),
    {
        broadcast use vstd::std_specs::hash::group_hash_axioms;

        let mut lines: Vec<String> = Vec::new();
        lines.push(String::from_str("\n=== Flash Verification Report ==="));
        lines.push(counted_line("Total sections: ", self.total_sections));
        lines.push(counted_line("Verified sections: ", self.verified_sections.len()));
        let failed = self.mismatched_sections.len();
        assert(failed == self@.mismatched_sections.dom().len()) by {
            assert(self@.mismatched_sections.dom() =~= self.mismatched_sections@.dom());
        }
        lines.push(counted_line("Failed sections: ", failed));
        let ghost counts = line_views(lines@);
        if self.errors.len() > 0 {
            lines.push(String::from_str("\nErrors:"));
            let ghost head = line_views(lines@);
            assert(head =~= counts + seq!["\nErrors:"@]);
            let mut i: usize = 0;
            while i < self.errors.len()
                invariant
                    i <= self.errors.len(),
                    line_views(lines@) == head + self@.errors.take(i as int).map_values(
                        |e: Seq<char>| "  \u{2022} "@ + e,
                    ),
                decreases self.errors.len() - i,
            {
                let ghost before = line_views(lines@);
                let mut line = String::from_str("  \u{2022} ");
                line.append(self.errors[i].as_str());
                lines.push(line);
                i = i + 1;
                proof {
                    let shown = self@.errors.take(i as int).map_values(
                        |e: Seq<char>| "  \u{2022} "@ + e,
                    );
                    let earlier = self@.errors.take(i - 1).map_values(
                        |e: Seq<char>| "  \u{2022} "@ + e,
                    );
                    assert(line_views(lines@) =~= before.push(line@));
                    assert(self@.errors[i - 1] == self.errors@[i - 1]@);
                    assert(shown =~= earlier.push(line@));
                    assert(before.push(line@) =~= head + shown);
                }
            }
            assert(self@.errors.take(i as int) =~= self@.errors);
        }
        assert(line_views(lines@) =~= summary_text(self@));
        lines
    }

    /// The line that closes the report of this result.
    pub fn verdict_line(&self) -> (line: String)
        ensures
            line@ == verdict_text(self.success),
    {
        if self.success {
            String::from_str("\nOverall result: PASS")
        } else {
            String::from_str("\nOverall result: FAIL")
        }
    }
}

} // verus!
