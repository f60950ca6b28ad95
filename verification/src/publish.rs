//! The decisions of an atomic write: naming the temporary file and what to do
//! after each attempt to create it.
use vstd::prelude::*;
use crate::text::{decimal, push_decimal};

verus! {

/// How many temporary names a write tries before giving up.
pub const TEMPORARY_ATTEMPTS: u32 = 100;

/// What became of an attempt to create a temporary file exclusively.
#[derive(Clone, Copy, Debug, PartialEq, Eq, Structural)]
pub enum OpenOutcome {
    Created,
    AlreadyExists,
    Failed,
}

/// What a write does next.
#[derive(Clone, Copy, Debug, PartialEq, Eq, Structural)]
pub enum TemporaryStep {
    /// Write the save into the file just created.
    Write,
    /// Try the next temporary name.
    Retry(u32),
    /// Report that the temporary file could not be created.
    Fail,
    /// Report that every temporary name was taken.
    Exhausted,
}

/// The suffix of temporary name `attempt` of process `pid`.
pub open spec fn spec_temporary_suffix(pid: u32, attempt: u32) -> Seq<char> {
    ".incomplete."@ + decimal(pid as nat) + "."@ + decimal(attempt as nat)
}

/// The suffix appended to the target path to name temporary file `attempt`.
pub fn temporary_suffix(pid: u32, attempt: u32) -> (res: String)
    ensures
        res@ == spec_temporary_suffix(pid, attempt),
{
    let mut s = String::from_str(".incomplete.");
    push_decimal(&mut s, pid as u64);
    s.append(".");
    push_decimal(&mut s, attempt as u64);
    proof {
        reveal_strlit(".incomplete.");
        reveal_strlit(".");
    }
    s
}

/// The step after attempt `attempt` to create a temporary file: write into it
/// once created, give up on any error but an existing name, and otherwise try
/// the next name until all are taken.
pub fn next_temporary_step(attempt: u32, outcome: OpenOutcome) -> (step: TemporaryStep)
    requires
        attempt < TEMPORARY_ATTEMPTS,
    ensures
        step == match outcome {
            OpenOutcome::Created => TemporaryStep::Write,
            OpenOutcome::Failed => TemporaryStep::Fail,
            OpenOutcome::AlreadyExists => if attempt + 1 < TEMPORARY_ATTEMPTS {
                TemporaryStep::Retry((attempt + 1) as u32)
            } else {
                TemporaryStep::Exhausted
            },
        },
{
    match outcome {
        OpenOutcome::Created => TemporaryStep::Write,
        OpenOutcome::Failed => TemporaryStep::Fail,
        OpenOutcome::AlreadyExists => if attempt + 1 < TEMPORARY_ATTEMPTS {
            TemporaryStep::Retry(attempt + 1)
        } else {
            TemporaryStep::Exhausted
        },
    }
}

} // verus!
