//! How long the mount stays.

use vstd::prelude::*;

verus! {

/// What the program does next, once the directory is mounted.
#[derive(Clone, Copy, Debug, PartialEq, Eq, Structural)]
pub enum Step {
    /// It waits for a signal or for the mount to be taken away.
    Wait,
    /// It takes the mount away and ends.
    Unmount,
    /// It ends; the mount has been taken away.
    Leave,
}

/// What to do when `signal` has come in, which is 0 as long as none has, and the mount has been
/// taken away or not. The program waits until one of the two happens, and a signal comes first.
pub fn next_step(signal: i32, finished: bool) -> (step: Step)
    ensures
        step == if signal != 0 {
            Step::Unmount
        } else if finished {
            Step::Leave
        } else {
            Step::Wait
        },
{
    if signal != 0 {
        Step::Unmount
    } else if finished {
        Step::Leave
    } else {
        Step::Wait
    }
}

} // verus!
