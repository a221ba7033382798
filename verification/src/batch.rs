//! The batch: what became of each source, and what the process reports.

use vstd::prelude::*;
use crate::pipeline::Outcome;

verus! {

/// How many sources ended in each way.
#[derive(Debug, Clone, Copy, PartialEq, Eq)]
pub struct Tally {
    pub produced: usize,
    pub skipped: usize,
    pub failed: usize,
}

/// How many of `outcomes` are an edition produced.
pub open spec fn produced_in(outcomes: Seq<Outcome>) -> nat
    decreases outcomes.len(),
{
    if outcomes.len() == 0 {
        0
    } else {
        produced_in(outcomes.drop_last()) + if outcomes.last() is Produced {
            1nat
        } else {
            0nat
        }
    }
}

/// How many of `outcomes` are a source passed over.
pub open spec fn skipped_in(outcomes: Seq<Outcome>) -> nat
    decreases outcomes.len(),
{
    if outcomes.len() == 0 {
        0
    } else {
        skipped_in(outcomes.drop_last()) + if outcomes.last() is Skipped {
            1nat
        } else {
            0nat
        }
    }
}

/// How many of `outcomes` are a failure.
pub open spec fn failed_in(outcomes: Seq<Outcome>) -> nat
    decreases outcomes.len(),
{
    if outcomes.len() == 0 {
        0
    } else {
        failed_in(outcomes.drop_last()) + if outcomes.last() is Failed {
            1nat
        } else {
            0nat
        }
    }
}

/// Every source is counted once: as produced, as skipped or as failed.
pub proof fn lemma_every_source_counted(outcomes: Seq<Outcome>)
    ensures
        produced_in(outcomes) + skipped_in(outcomes) + failed_in(outcomes) == outcomes.len(),
    decreases outcomes.len(),
{
    if outcomes.len() > 0 {
        lemma_every_source_counted(outcomes.drop_last());
    }
}

/// The outcomes of the sources of one batch, in the order of the sources.
#[derive(Debug, Clone)]
pub struct BatchReport {
    outcomes: Vec<Outcome>,
}

impl View for BatchReport {
    type V = Seq<Outcome>;

    closed spec fn view(&self) -> Seq<Outcome> {
        self.outcomes@
    }
}

impl BatchReport {
    /// The report of a batch in which no source has ended yet.
    pub fn new() -> (report: BatchReport)
        ensures
            report@ == Seq::<Outcome>::empty(),
    {
        BatchReport { outcomes: Vec::new() }
    }

    /// Notes how the next source ended. Whatever the outcome, the batch goes
    /// on: the earlier outcomes stay as they are.
    pub fn record(&mut self, outcome: Outcome)
        ensures
            final(self)@ == old(self)@.push(outcome),
    {
        self.outcomes.push(outcome);
    }

    /// How many sources ended in each way.
    pub fn tally(&self) -> (tally: Tally)
        ensures
            tally.produced == produced_in(self@),
            tally.skipped == skipped_in(self@),
            tally.failed == failed_in(self@),
            tally.produced + tally.skipped + tally.failed == self@.len(),
    {
        let n = self.outcomes.len();
        let mut tally = Tally { produced: 0, skipped: 0, failed: 0 };
        let mut i: usize = 0;
        proof {
            assert(self@.take(0) =~= Seq::<Outcome>::empty());
        }
        while i < n
            invariant
                i <= n,
                n == self.outcomes.len(),
                tally.produced == produced_in(self@.take(i as int)),
                tally.skipped == skipped_in(self@.take(i as int)),
                tally.failed == failed_in(self@.take(i as int)),
                tally.produced + tally.skipped + tally.failed == i,
            decreases n - i,
        {
            proof {
                assert(self@.take(i + 1).drop_last() =~= self@.take(i as int));
            }
            match self.outcomes[i] {
                Outcome::Produced => {
                    tally.produced += 1;
                },
                Outcome::Skipped => {
                    tally.skipped += 1;
                },
                Outcome::Failed { .. } => {
                    tally.failed += 1;
                },
            }
            i += 1;
        }
        proof {
            assert(self@.take(n as int) =~= self@);
        }
        tally
    }

    /// The exit code of the process: 0 if no source failed, 1 otherwise. A
    /// source passed over is no failure.
    pub fn exit_code(&self) -> (code: i32)
        ensures
            code == if failed_in(self@) == 0 {
                0i32
            } else {
                1i32
            },
    {
        if self.tally().failed == 0 {
            0
        } else {
            1
        }
    }
}

} // verus!
