use vstd::prelude::*;

verus! {

/// What one execution of the instrumented test binary yielded: the tests
/// passed, at least one failed, or the process did not exit within the
/// wall-clock budget and was killed.
#[derive(Clone, Copy, PartialEq, Eq, Structural, Debug)]
pub enum RunOutcome {
    Passed,
    Failed,
    TimedOut,
}

/// The classification of a mutation after its run: `Survived` means the test
/// suite noticed nothing, `Caught` means at least one test failed or the
/// binary hung.
#[derive(Clone, Copy, PartialEq, Eq, Structural, Debug)]
pub enum Verdict {
    Survived,
    Caught,
}

/// A mutation survives exactly when the whole executed test scope passed;
/// a failure or a hang both count as detection.
pub open spec fn spec_verdict(outcome: RunOutcome) -> Verdict {
    if outcome == RunOutcome::Passed {
        Verdict::Survived
    } else {
        Verdict::Caught
    }
}

/// Classify one wait on the child process: `exited` is `Some(success)` when
/// the process exited within the budget (`success` from its exit status) and
/// `None` when the budget elapsed first. A clean exit is `Passed`, any other
/// exit is `Failed`, and no exit is `TimedOut`.
pub fn classify_wait(exited: Option<bool>) -> (r: RunOutcome)
    ensures
        r == match exited {
            Some(true) => RunOutcome::Passed,
            Some(false) => RunOutcome::Failed,
            None => RunOutcome::TimedOut,
        },
{
    match exited {
        Some(true) => RunOutcome::Passed,
        Some(false) => RunOutcome::Failed,
        None => RunOutcome::TimedOut,
    }
}

/// Map an execution outcome to the mutation's verdict.
pub fn verdict_of(outcome: RunOutcome) -> (v: Verdict)
    ensures
        v == spec_verdict(outcome),
{
    match outcome {
        RunOutcome::Passed => Verdict::Survived,
        RunOutcome::Failed => Verdict::Caught,
        RunOutcome::TimedOut => Verdict::Caught,
    }
}

} // verus!
