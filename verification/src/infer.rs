//! Inference decisions: turning a model's fixed-point output into a
//! classification verdict, the accuracy test's predicted label, and the
//! interactive loop's reading of one input line.
//!
//! Probabilities travel in fixed point with two implied decimal places:
//! the full scale `0..=10000` stands for 0.00 to 100.00 percent.

use vstd::prelude::*;
use crate::corpus::NEWLINE;

verus! {

/// Verdict for a message the classifier cannot read at the boundary
/// (a null or non-UTF-8 text).
pub const VERDICT_BAD_INPUT: i32 = -1;

/// Verdict for a model output above the valid probability range: a
/// corrupted-model signal, not a confident classification.
pub const VERDICT_OUT_HIGH: i32 = -2;

/// Verdict for a model output below the valid probability range.
pub const VERDICT_OUT_LOW: i32 = -3;

/// Top of the fixed-point percentage scale: 100.00 percent.
pub const SCALE_TOP: i32 = 10000;

/// The midpoint of the probability scale: 0.50, the rounding threshold
/// between the two predicted labels.
pub const SCALE_HALF: i32 = 5000;

/// The classification verdict for a scaled sigmoid output: a value on the
/// fixed-point percentage scale passes through unchanged, and an output
/// that escapes the valid probability range comes back as the matching
/// error code, never as a percentage.
pub fn classify_verdict(scaled: i64) -> (r: i32)
    ensures
        0 <= scaled <= SCALE_TOP ==> r == scaled,
        scaled > SCALE_TOP ==> r == VERDICT_OUT_HIGH,
        scaled < 0 ==> r == VERDICT_OUT_LOW,
        r == VERDICT_OUT_HIGH || r == VERDICT_OUT_LOW || 0 <= r <= SCALE_TOP,
{
    if scaled > SCALE_TOP as i64 {
        VERDICT_OUT_HIGH
    } else if scaled < 0 {
        VERDICT_OUT_LOW
    } else {
        scaled as i32
    }
}

/// The validation test's prediction for a scaled sigmoid output: rounding
/// the probability labels everything from the midpoint up as the target
/// author.
pub fn predicted_label(scaled: i64) -> (r: bool)
    ensures
        r == (scaled >= SCALE_HALF),
{
    scaled >= SCALE_HALF as i64
}

/// What the interactive loop does with one line it has read.
#[derive(Clone, Copy, Debug, PartialEq, Eq)]
pub enum ReplAction {
    /// The literal word `exit`: leave the loop.
    Quit,
    /// An empty line: skip it and read on.
    Skip,
    /// Anything else: score the line and print the percentage.
    Score,
}

/// The bytes of the literal word `exit`.
pub open spec fn exit_word() -> Seq<u8> {
    seq![101u8, 120u8, 105u8, 116u8]
}

/// Whether `line` is exactly the word `exit`.
fn is_exit(line: &[u8]) -> (r: bool)
    ensures
        r == (line@ == exit_word()),
{
    if line.len() != 4 {
        return false;
    }
    let r = line[0] == 101u8 && line[1] == 120u8 && line[2] == 105u8 && line[3] == 116u8;
    proof {
        if r {
            assert(line@ =~= exit_word());
        }
    }
    r
}

/// Strip one trailing newline byte from a line, if it ends in one; any
/// other line comes back unchanged.
pub fn trim_newline(line: Vec<u8>) -> (r: Vec<u8>)
    ensures
        r@ == (if line@.len() > 0 && line@.last() == NEWLINE {
            line@.drop_last()
        } else {
            line@
        }),
{
    let mut out = line;
    if out.len() > 0 && out[out.len() - 1] == NEWLINE {
        out.pop();
    }
    out
}

/// Decide what the interactive loop does with one trimmed line: quit on the
/// literal `exit`, skip an empty line, and score everything else.
pub fn repl_action(line: &[u8]) -> (r: ReplAction)
    ensures
        line@ == exit_word() ==> r == ReplAction::Quit,
        line@ != exit_word() && line@.len() == 0 ==> r == ReplAction::Skip,
        line@ != exit_word() && line@.len() > 0 ==> r == ReplAction::Score,
{
    if is_exit(line) {
        ReplAction::Quit
    } else if line.len() == 0 {
        ReplAction::Skip
    } else {
        ReplAction::Score
    }
}

} // verus!
