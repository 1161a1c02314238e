use vstd::prelude::*;

verus! {

/// Where a run of a plan of `total` steps stands: steps `0..next` have
/// succeeded, and when `failed` is set step `next` failed and nothing more
/// runs.
#[derive(Debug, Clone, Copy, PartialEq, Eq)]
pub struct Runner {
    pub total: usize,
    pub next: usize,
    pub failed: bool,
}

impl Runner {
    pub open spec fn wf(&self) -> bool {
        self.next <= self.total && (self.failed ==> self.next < self.total)
    }

    /// The step to run now, if any.
    pub open spec fn pending(&self) -> Option<usize> {
        if self.failed || self.next >= self.total {
            None
        } else {
            Some(self.next)
        }
    }

    /// The state after the pending step reports `ok`.
    pub open spec fn advanced(&self, ok: bool) -> Runner {
        if ok {
            Runner { total: self.total, next: (self.next + 1) as usize, failed: false }
        } else {
            Runner { total: self.total, next: self.next, failed: true }
        }
    }

    /// A run that has not started.
    pub open spec fn initial(total: usize) -> Runner {
        Runner { total, next: 0, failed: false }
    }

    pub fn new(total: usize) -> (r: Runner)
        ensures
            r == Runner::initial(total),
            r.wf(),
    {
        Runner { total, next: 0, failed: false }
    }

    /// The index of the step to run now; none once every step has succeeded
    /// or one has failed.
    pub fn next_step(&self) -> (r: Option<usize>)
        requires
            self.wf(),
        ensures
            r == self.pending(),
    {
        if self.failed || self.next >= self.total {
            None
        } else {
            Some(self.next)
        }
    }

    /// Records the outcome of the pending step: success moves on to the next
    /// step, failure stops the run at this one.
    pub fn record(&mut self, ok: bool)
        requires
            old(self).wf(),
            old(self).pending() is Some,
        ensures
            *final(self) == old(self).advanced(ok),
            final(self).wf(),
    {
        if ok {
            self.next = self.next + 1;
        } else {
            self.failed = true;
        }
    }

    /// Every step has succeeded.
    pub fn is_complete(&self) -> (r: bool)
        ensures
            r == (!self.failed && self.next == self.total),
    {
        !self.failed && self.next == self.total
    }

    /// The step that failed, if one did.
    pub fn failed_step(&self) -> (r: Option<usize>)
        ensures
            r == (if self.failed {
                Some(self.next)
            } else {
                None
            }),
    {
        if self.failed {
            Some(self.next)
        } else {
            None
        }
    }
}

/// The state after feeding `outcomes` to `r`, one per pending step; outcomes
/// left over once nothing is pending are not used.
pub open spec fn run_with(r: Runner, outcomes: Seq<bool>) -> Runner
    decreases outcomes.len(),
{
    if outcomes.len() == 0 || r.pending() is None {
        r
    } else {
        run_with(r.advanced(outcomes[0]), outcomes.drop_first())
    }
}

/// A run stops at its first failure: when steps `0..k` succeed and step `k`
/// fails, the run ends failed at `k`, and no step after `k` is ever run.
pub proof fn lemma_stops_at_first_failure(total: usize, outcomes: Seq<bool>, k: int)
    requires
        0 <= k < total,
        k < outcomes.len(),
        !outcomes[k],
        forall|j: int| 0 <= j < k ==> #[trigger] outcomes[j],
    ensures
        run_with(Runner::initial(total), outcomes) == (Runner {
            total,
            next: k as usize,
            failed: true,
        }),
        run_with(Runner::initial(total), outcomes).pending() is None,
{
    lemma_run_from(total, 0, outcomes, k);
}

proof fn lemma_run_from(total: usize, start: int, outcomes: Seq<bool>, k: int)
    requires
        0 <= start <= k < total,
        k - start < outcomes.len(),
        !outcomes[k - start],
        forall|j: int| 0 <= j < k - start ==> #[trigger] outcomes[j],
    ensures
        run_with(Runner { total, next: start as usize, failed: false }, outcomes) == (Runner {
            total,
            next: k as usize,
            failed: true,
        }),
    decreases k - start,
{
    let r = Runner { total, next: start as usize, failed: false };
    if start < k {
        assert(outcomes[0]);
        let rest = outcomes.drop_first();
        assert forall|j: int| 0 <= j < k - (start + 1) implies #[trigger] rest[j] by {
            assert(rest[j] == outcomes[j + 1]);
        };
        assert(rest[k - (start + 1)] == outcomes[k - start]);
        lemma_run_from(total, start + 1, rest, k);
    } else {
        let f = r.advanced(false);
        assert(run_with(f, outcomes.drop_first()) == f);
    }
}

/// A run in which every step succeeds ends complete after exactly `total`
/// steps.
pub proof fn lemma_all_succeed(total: usize, outcomes: Seq<bool>)
    requires
        outcomes.len() >= total,
        forall|j: int| 0 <= j < total ==> #[trigger] outcomes[j],
    ensures
        run_with(Runner::initial(total), outcomes) == (Runner {
            total,
            next: total,
            failed: false,
        }),
{
    lemma_all_succeed_from(total, 0, outcomes);
}

proof fn lemma_all_succeed_from(total: usize, start: int, outcomes: Seq<bool>)
    requires
        0 <= start <= total,
        outcomes.len() >= total - start,
        forall|j: int| 0 <= j < total - start ==> #[trigger] outcomes[j],
    ensures
        run_with(Runner { total, next: start as usize, failed: false }, outcomes) == (Runner {
            total,
            next: total,
            failed: false,
        }),
    decreases total - start,
{
    if start < total {
        assert(outcomes[0]);
        let rest = outcomes.drop_first();
        assert forall|j: int| 0 <= j < total - (start + 1) implies #[trigger] rest[j] by {
            assert(rest[j] == outcomes[j + 1]);
        };
        lemma_all_succeed_from(total, start + 1, rest);
    }
}

} // verus!
