use vstd::prelude::*;

use crate::ptrace::WaitStatus;

verus! {

/// Whether a `waitpid` status of the traced program ends its monitoring: it
/// exited or was killed by a signal.
pub fn process_finished(status: &WaitStatus) -> (r: bool)
    ensures
        r == (status is Exited || status is Signaled),
{
    matches!(status, WaitStatus::Exited(..) | WaitStatus::Signaled(..))
}

} // verus!
