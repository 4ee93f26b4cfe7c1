//! The run registry: an append-only, bounded record of agent runs.
//!
//! The scheduler and the trigger handler both append here; the registry
//! never grows past its cap — the oldest records are evicted first — and
//! readers get a newest-first snapshot.

use vstd::prelude::*;

use crate::model::{AgentRunState, AgentRunStatus};
use crate::text::eq_str;

verus! {

/// The most runs the registry retains.
pub const MAX_RUNS: usize = 100;

pub struct RunRegistry {
    runs: Vec<AgentRunStatus>,
}

impl RunRegistry {
    /// The registry never holds more than the cap.
    pub closed spec fn wf(self) -> bool {
        self.runs@.len() <= MAX_RUNS
    }

    /// The recorded runs, oldest first.
    pub closed spec fn records(self) -> Seq<AgentRunStatus> {
        self.runs@
    }

    pub fn new() -> (r: RunRegistry)
        ensures
            r.wf(),
            r.records().len() == 0,
    {
        RunRegistry { runs: Vec::new() }
    }

    /// The number of retained runs.
    pub fn len(&self) -> (r: usize)
        ensures
            r == self.records().len(),
    {
        self.runs.len()
    }

    /// Append a run record, evicting the oldest entries beyond the cap.
    pub fn push_run(&mut self, run: AgentRunStatus)
        requires
            old(self).wf(),
        ensures
            final(self).wf(),
            final(self).records().len() <= MAX_RUNS,
            final(self).records().len() > 0,
            final(self).records().last() == run,
            final(self).records() == old(self).records().push(run).skip(
                old(self).records().push(run).len() - final(self).records().len(),
            ),
    {
        let ghost pushed = self.runs@.push(run);
        self.runs.push(run);
        proof {
            assert(pushed.skip(0) =~= pushed);
        }
        while self.runs.len() > MAX_RUNS
            invariant
                0 < self.runs@.len() <= pushed.len(),
                self.runs@.last() == run,
                self.runs@ == pushed.skip(pushed.len() - self.runs@.len()),
            decreases self.runs@.len(),
        {
            let ghost prev = self.runs@;
            let ghost k = pushed.len() - prev.len();
            let _ = self.runs.remove(0);
            proof {
                assert(self.runs@ =~= prev.drop_first());
                assert(self.runs@.last() == prev.last());
                assert forall|x: int| 0 <= x < self.runs@.len() implies self.runs@[x]
                    == pushed.skip(k + 1)[x] by {
                    assert(self.runs@[x] == prev[x + 1]);
                    assert(prev[x + 1] == pushed.skip(k)[x + 1]);
                    assert(pushed.skip(k)[x + 1] == pushed[k + x + 1]);
                    assert(pushed.skip(k + 1)[x] == pushed[k + 1 + x]);
                }
                assert(self.runs@ =~= pushed.skip(k + 1));
                assert(k + 1 == pushed.len() - self.runs@.len());
            }
        }
    }

    /// Rewrite the record with this run id, marking it finished.  The
    /// first record carrying the id gets the given outcome; every other
    /// record, and everything when the id is absent, stays as it was.
    pub fn update_run(
        &mut self,
        run_id: &str,
        status: AgentRunState,
        finished_at: i64,
        documents_collected: u64,
        entities_extracted: u64,
        error: Option<String>,
    )
        requires
            old(self).wf(),
        ensures
            final(self).wf(),
            final(self).records().len() == old(self).records().len(),
            match spec_find_run(old(self).records(), run_id@) {
                Some(i) => {
                    &&& final(self).records()[i].run_id == old(self).records()[i].run_id
                    &&& final(self).records()[i].agent_name == old(self).records()[i].agent_name
                    &&& final(self).records()[i].started_at == old(self).records()[i].started_at
                    &&& final(self).records()[i].status == status
                    &&& final(self).records()[i].finished_at == Some(finished_at)
                    &&& final(self).records()[i].documents_collected == documents_collected
                    &&& final(self).records()[i].entities_extracted == entities_extracted
                    &&& final(self).records()[i].error == error
                    &&& forall|j: int|
                        0 <= j < final(self).records().len() && j != i
                            ==> final(self).records()[j] == old(self).records()[j]
                },
                None => final(self).records() == old(self).records(),
            },
    {
        let n = self.runs.len();
        let mut i: usize = 0;
        while i < n
            invariant
                i <= n,
                self.wf(),
                n == self.runs@.len(),
                self.runs@ == old(self).runs@,
                forall|k: int| 0 <= k < i ==> (#[trigger] self.runs@[k]).run_id@ != run_id@,
            decreases n - i,
        {
            if eq_str(self.runs[i].run_id.as_str(), run_id) {
                proof {
                    lemma_find_run(self.runs@, run_id@, i as int);
                }
                let ghost before = self.runs@;
                let old_run = self.runs.remove(i);
                let new_run = AgentRunStatus {
                    run_id: old_run.run_id,
                    agent_name: old_run.agent_name,
                    status,
                    started_at: old_run.started_at,
                    finished_at: Some(finished_at),
                    documents_collected,
                    entities_extracted,
                    error,
                };
                self.runs.insert(i, new_run);
                proof {
                    assert(self.runs@ =~= before.update(i as int, self.runs@[i as int]));
                }
                return ;
            }
            i += 1;
        }
        proof {
            lemma_find_run(self.runs@, run_id@, n as int);
        }
    }

    /// A newest-first snapshot of the retained runs: the records exactly,
    /// in reverse order.
    pub fn snapshot(&self) -> (r: Vec<AgentRunStatus>)
        ensures
            r@.len() == self.records().len(),
            forall|i: int|
                0 <= i < r@.len() ==> #[trigger] r@[i] == self.records()[r@.len() - 1 - i],
    {
        let n = self.runs.len();
        let mut r: Vec<AgentRunStatus> = Vec::new();
        let mut i: usize = n;
        while i > 0
            invariant
                i <= n,
                n == self.runs@.len(),
                r@.len() == n - i,
                forall|x: int| 0 <= x < r@.len() ==> #[trigger] r@[x] == self.runs@[n - 1 - x],
            decreases i,
        {
            i -= 1;
            r.push(clone_run(&self.runs[i]));
        }
        r
    }
}

/// The index of the first record carrying this run id, if any.
pub open spec fn spec_find_run(runs: Seq<AgentRunStatus>, run_id: Seq<char>) -> Option<int>
    decreases runs.len(),
{
    if runs.len() == 0 {
        None
    } else if runs[0].run_id@ == run_id {
        Some(0int)
    } else {
        match spec_find_run(runs.drop_first(), run_id) {
            Some(i) => Some(i + 1),
            None => None,
        }
    }
}

/// A forward scan that saw no hit before `i` pins down the first index.
proof fn lemma_find_run(runs: Seq<AgentRunStatus>, run_id: Seq<char>, i: int)
    requires
        0 <= i <= runs.len(),
        forall|k: int| 0 <= k < i ==> (#[trigger] runs[k]).run_id@ != run_id,
        i == runs.len() || runs[i].run_id@ == run_id,
    ensures
        i < runs.len() ==> spec_find_run(runs, run_id) == Some(i),
        i == runs.len() ==> spec_find_run(runs, run_id) is None,
    decreases i,
{
    if i == 0 {
    } else {
        lemma_find_run(runs.drop_first(), run_id, i - 1);
    }
}

/// A copy of a run record, equal to the original in every field.
pub fn clone_run(r0: &AgentRunStatus) -> (r: AgentRunStatus)
    ensures
        r == *r0,
{
    let error = match &r0.error {
        Some(e) => Some(e.clone()),
        None => None,
    };
    AgentRunStatus {
        run_id: r0.run_id.clone(),
        agent_name: r0.agent_name.clone(),
        status: r0.status,
        started_at: r0.started_at,
        finished_at: r0.finished_at,
        documents_collected: r0.documents_collected,
        entities_extracted: r0.entities_extracted,
        error,
    }
}

} // verus!
