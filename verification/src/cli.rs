//! The command-line surface's decision: which of the two commands the
//! arguments select, with which operand.

use vstd::prelude::*;
use crate::corpus::copy_bytes;

verus! {

/// What the command line asks for.
pub enum Command {
    /// `train <prefix>`: run the training pipeline; checkpoints are named
    /// under the given prefix, empty when none was given.
    Train { prefix: Vec<u8> },
    /// `run <path>`: load the checkpoint at `path` and score input lines.
    Run { path: Vec<u8> },
    /// `run` without a checkpoint path: report the missing operand.
    RunMissingPath,
    /// No command, or an unknown one: print the usage hint.
    Usage,
}

/// The bytes of the command word `train`.
pub open spec fn train_word() -> Seq<u8> {
    seq![116u8, 114u8, 97u8, 105u8, 110u8]
}

/// The bytes of the command word `run`.
pub open spec fn run_word() -> Seq<u8> {
    seq![114u8, 117u8, 110u8]
}

/// Whether `w` is exactly the word `train`.
fn is_train(w: &[u8]) -> (r: bool)
    ensures
        r == (w@ == train_word()),
{
    if w.len() != 5 {
        return false;
    }
    let r = w[0] == 116u8 && w[1] == 114u8 && w[2] == 97u8 && w[3] == 105u8 && w[4] == 110u8;
    proof {
        if r {
            assert(w@ =~= train_word());
        }
    }
    r
}

/// Whether `w` is exactly the word `run`.
fn is_run(w: &[u8]) -> (r: bool)
    ensures
        r == (w@ == run_word()),
{
    if w.len() != 3 {
        return false;
    }
    let r = w[0] == 114u8 && w[1] == 117u8 && w[2] == 110u8;
    proof {
        if r {
            assert(w@ =~= run_word());
        }
    }
    r
}

/// Parse the arguments that follow the program name: `train` takes an
/// optional checkpoint prefix, `run` requires a checkpoint path, and
/// anything else asks for the usage hint.
pub fn parse_command(args: &Vec<Vec<u8>>) -> (r: Command)
    ensures
        args@.len() == 0 ==> r == Command::Usage,
        args@.len() >= 2 && args@[0]@ == train_word() ==> (r matches Command::Train { prefix }
            && prefix@ == args@[1]@),
        args@.len() == 1 && args@[0]@ == train_word() ==> (r matches Command::Train { prefix }
            && prefix@ == Seq::<u8>::empty()),
        args@.len() >= 2 && args@[0]@ == run_word() ==> (r matches Command::Run { path }
            && path@ == args@[1]@),
        args@.len() == 1 && args@[0]@ == run_word() ==> r == Command::RunMissingPath,
        args@.len() >= 1 && args@[0]@ != train_word() && args@[0]@ != run_word() ==> r
            == Command::Usage,
{
    if args.len() == 0 {
        return Command::Usage;
    }
    let first = &args[0];
    if is_train(first.as_slice()) {
        let prefix = if args.len() >= 2 {
            copy_bytes(&args[1])
        } else {
            Vec::new()
        };
        Command::Train { prefix }
    } else if is_run(first.as_slice()) {
        if args.len() >= 2 {
            Command::Run { path: copy_bytes(&args[1]) }
        } else {
            Command::RunMissingPath
        }
    } else {
        Command::Usage
    }
}

} // verus!
