use vstd::prelude::*;

use crate::outcome::RunOutcome;
use crate::outcome::Verdict;
use crate::outcome::spec_verdict;
use crate::outcome::verdict_of;

verus! {

// ---------------------------------------------------------------------------
// Tallying verdicts.
// ---------------------------------------------------------------------------

pub open spec fn count_survived(vs: Seq<Verdict>) -> nat
    decreases vs.len(),
{
    if vs.len() == 0 {
        0
    } else {
        count_survived(vs.drop_last()) + if vs.last() == Verdict::Survived {
            1nat
        } else {
            0nat
        }
    }
}

pub open spec fn count_caught(vs: Seq<Verdict>) -> nat
    decreases vs.len(),
{
    if vs.len() == 0 {
        0
    } else {
        count_caught(vs.drop_last()) + if vs.last() == Verdict::Caught {
            1nat
        } else {
            0nat
        }
    }
}

/// Law: survivors and caught mutations partition the catalog: their counts
/// always sum to the number of verdicts.
pub proof fn lemma_score_partitions(vs: Seq<Verdict>)
    ensures
        count_survived(vs) + count_caught(vs) == vs.len(),
    decreases vs.len(),
{
    if vs.len() > 0 {
        lemma_score_partitions(vs.drop_last());
    }
}

/// Running counts of classified mutations.
pub struct MutationScore {
    pub survived: usize,
    pub caught: usize,
}

impl MutationScore {
    pub fn new() -> (s: MutationScore)
        ensures
            s.survived == 0,
            s.caught == 0,
    {
        MutationScore { survived: 0, caught: 0 }
    }

    /// Add one classified mutation to the running counts.
    pub fn record(&mut self, v: Verdict)
        requires
            old(self).survived + old(self).caught < usize::MAX,
        ensures
            final(self).survived + final(self).caught == old(self).survived + old(self).caught
                + 1,
            final(self).survived == old(self).survived + if v == Verdict::Survived {
                1int
            } else {
                0int
            },
            final(self).caught == old(self).caught + if v == Verdict::Caught {
                1int
            } else {
                0int
            },
    {
        match v {
            Verdict::Survived => {
                self.survived = self.survived + 1;
            },
            Verdict::Caught => {
                self.caught = self.caught + 1;
            },
        }
    }

    /// The whole run is "ok" exactly when no mutation survived.
    pub fn is_ok(&self) -> (r: bool)
        ensures
            r == (self.survived == 0),
    {
        self.survived == 0
    }
}

/// Tally a finished verdict list.
pub fn tally(verdicts: &Vec<Verdict>) -> (s: MutationScore)
    ensures
        s.survived as nat == count_survived(verdicts@),
        s.caught as nat == count_caught(verdicts@),
        s.survived + s.caught == verdicts@.len(),
{
    let mut s = MutationScore::new();
    let mut i: usize = 0;
    while i < verdicts.len()
        invariant
            i <= verdicts@.len(),
            s.survived as nat == count_survived(verdicts@.subrange(0, i as int)),
            s.caught as nat == count_caught(verdicts@.subrange(0, i as int)),
            s.survived + s.caught == i,
        decreases verdicts@.len() - i,
    {
        let ghost pre = verdicts@.subrange(0, i as int);
        let ghost ext = verdicts@.subrange(0, i + 1);
        proof {
            assert(ext.drop_last() =~= pre);
            assert(ext.last() == verdicts@[i as int]);
        }
        s.record(verdicts[i]);
        i += 1;
    }
    proof {
        assert(verdicts@.subrange(0, verdicts@.len() as int) =~= verdicts@);
        lemma_score_partitions(verdicts@);
    }
    s
}

// ---------------------------------------------------------------------------
// The run itself: baseline first, then one verdict per catalog entry.
// ---------------------------------------------------------------------------

/// Where a run stands.
#[derive(Clone, Copy, PartialEq, Eq, Structural, Debug)]
pub enum Phase {
    /// The unmutated binary has not been executed yet.
    AwaitingBaseline,
    /// The baseline passed; mutations are being tried in catalog order.
    Running,
    /// The baseline did not pass; the run is aborted with no verdicts.
    BaselineFailed,
    /// Every catalog entry has a verdict.
    Done,
}

/// The sequential mutation run: it asks for one process execution at a time
/// and turns the outcomes into verdicts. The caller performs the executions;
/// this type makes every decision.
pub struct Engine {
    /// Mutation ids, in catalog order.
    pub ids: Vec<usize>,
    pub phase: Phase,
    /// How many catalog entries have a verdict.
    pub pos: usize,
    /// One verdict per completed catalog entry, in catalog order.
    pub verdicts: Vec<Verdict>,
}

impl Engine {
    pub open spec fn wf(&self) -> bool {
        &&& self.pos <= self.ids@.len()
        &&& self.verdicts@.len() == self.pos
        &&& (self.phase is AwaitingBaseline ==> self.pos == 0)
        &&& (self.phase is BaselineFailed ==> self.pos == 0)
        &&& (self.phase is Running ==> self.pos < self.ids@.len())
        &&& (self.phase is Done ==> self.pos == self.ids@.len())
    }

    pub fn new(ids: Vec<usize>) -> (e: Engine)
        ensures
            e.wf(),
            e.phase is AwaitingBaseline,
            e.ids@ == ids@,
            e.verdicts@.len() == 0,
    {
        Engine { ids, phase: Phase::AwaitingBaseline, pos: 0, verdicts: Vec::new() }
    }

    /// The mutation id to execute next: 0 (the baseline) first, then each
    /// catalog id in order; `None` once the run is over or aborted.
    pub fn pending(&self) -> (r: Option<usize>)
        requires
            self.wf(),
        ensures
            match self.phase {
                Phase::AwaitingBaseline => r == Some(0usize),
                Phase::Running => r == Some(self.ids@[self.pos as int]),
                Phase::BaselineFailed => r is None,
                Phase::Done => r is None,
            },
    {
        match self.phase {
            Phase::AwaitingBaseline => Some(0),
            Phase::Running => Some(self.ids[self.pos]),
            Phase::BaselineFailed => None,
            Phase::Done => None,
        }
    }

    /// Record the outcome of the baseline execution. Anything but `Passed`
    /// aborts the run: no mutation verdict is ever produced after that.
    pub fn feed_baseline(&mut self, outcome: RunOutcome)
        requires
            old(self).wf(),
            old(self).phase is AwaitingBaseline,
        ensures
            final(self).wf(),
            final(self).ids@ == old(self).ids@,
            final(self).verdicts@ == old(self).verdicts@,
            final(self).pos == old(self).pos,
            final(self).phase == if outcome is Passed {
                if old(self).ids@.len() == 0 {
                    Phase::Done
                } else {
                    Phase::Running
                }
            } else {
                Phase::BaselineFailed
            },
    {
        if let RunOutcome::Passed = outcome {
            if self.ids.len() == 0 {
                self.phase = Phase::Done;
            } else {
                self.phase = Phase::Running;
            }
        } else {
            self.phase = Phase::BaselineFailed;
        }
    }

    /// Record the outcome of the pending mutation's execution and classify
    /// it: a pass means the mutation survived, anything else means it was
    /// caught.
    pub fn feed(&mut self, outcome: RunOutcome)
        requires
            old(self).wf(),
            old(self).phase is Running,
        ensures
            final(self).wf(),
            final(self).ids@ == old(self).ids@,
            final(self).pos == old(self).pos + 1,
            final(self).verdicts@ == old(self).verdicts@.push(spec_verdict(outcome)),
            final(self).phase == if old(self).pos + 1 == old(self).ids@.len() {
                Phase::Done
            } else {
                Phase::Running
            },
    {
        let v = verdict_of(outcome);
        self.verdicts.push(v);
        let n = self.ids.len();
        self.pos = self.pos + 1;
        if self.pos == n {
            self.phase = Phase::Done;
        }
    }
}

/// The verdicts of one whole run over `ids`, in catalog order, when the
/// binary's behaviour is fixed: `out` gives the outcome of executing each
/// mutation id.
pub open spec fn spec_run_verdicts(ids: Seq<usize>, out: Map<usize, RunOutcome>) -> Seq<Verdict>
    decreases ids.len(),
{
    if ids.len() == 0 {
        Seq::empty()
    } else {
        spec_run_verdicts(ids.drop_last(), out).push(spec_verdict(out[ids.last()]))
    }
}

/// Law: running the same catalog twice against behaviour that is the same
/// function of the mutation id both times yields identical per-mutation
/// verdicts — and so identical counts and the same final status, which are
/// functions of the verdict list.
pub proof fn lemma_runs_idempotent(
    ids: Seq<usize>,
    out1: Map<usize, RunOutcome>,
    out2: Map<usize, RunOutcome>,
)
    requires
        forall|id: usize| ids.contains(id) ==> out1[id] == out2[id],
    ensures
        spec_run_verdicts(ids, out1) == spec_run_verdicts(ids, out2),
    decreases ids.len(),
{
    if ids.len() > 0 {
        assert(ids.contains(ids.last()));
        assert forall|id: usize| ids.drop_last().contains(id) implies out1[id] == out2[id] by {
            let w = choose|w: int| 0 <= w < ids.drop_last().len() && ids.drop_last()[w] == id;
            assert(ids[w] == id);
            assert(ids.contains(id));
        }
        lemma_runs_idempotent(ids.drop_last(), out1, out2);
    }
}

/// Law: if the baseline run does not pass, the engine aborts with no
/// mutation verdicts at all.
pub proof fn lemma_baseline_failure_yields_no_verdicts(e: Engine)
    requires
        e.wf(),
        e.phase is BaselineFailed,
    ensures
        e.verdicts@.len() == 0,
{
}

} // verus!
