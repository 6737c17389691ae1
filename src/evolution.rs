use vstd::prelude::*;

use crate::enigma::Settings;

verus! {

/// Why the generation loop stopped.
#[derive(Clone, Copy, Debug, PartialEq, Eq, Structural)]
pub enum StopReason {
    /// The configured number of generations has been run.
    GenerationLimitReached,
    /// The configured running time has passed.
    TimedOut,
    /// The best fitness reached the target.
    Converged,
}

/// The limits under which the generation loop runs.
#[derive(Clone, Copy, Debug, PartialEq, Eq, Structural)]
pub struct Limits {
    pub generation_limit: u64,
    pub time_limit_millis: u64,
    pub target_fitness: usize,
}

/// The loop stops after `generation_limit` generations, after
/// `time_limit_millis` milliseconds, or once the best fitness reaches the
/// target, whichever comes first; when several hold at once, the earlier in
/// that list is reported.
pub open spec fn stop_reason(generation: u64, elapsed_millis: u64, best_fitness: usize, limits: Limits) -> Option<StopReason> {
    if generation >= limits.generation_limit {
        Some(StopReason::GenerationLimitReached)
    } else if elapsed_millis >= limits.time_limit_millis {
        Some(StopReason::TimedOut)
    } else if best_fitness >= limits.target_fitness {
        Some(StopReason::Converged)
    } else {
        None
    }
}

/// Whether the loop stops after `generation` generations, `elapsed_millis`
/// milliseconds and a best fitness of `best_fitness`, and why.
pub fn check_termination(generation: u64, elapsed_millis: u64, best_fitness: usize, limits: &Limits) -> (r: Option<StopReason>)
    ensures
        r == stop_reason(generation, elapsed_millis, best_fitness, *limits),
{
    if generation >= limits.generation_limit {
        Some(StopReason::GenerationLimitReached)
    } else if elapsed_millis >= limits.time_limit_millis {
        Some(StopReason::TimedOut)
    } else if best_fitness >= limits.target_fitness {
        Some(StopReason::Converged)
    } else {
        None
    }
}

/// The best configuration seen so far in a run, with its fitness.
pub struct BestSoFar {
    pub settings: Settings,
    pub fitness: usize,
}

/// The record after a generation whose best is `candidate` with `fitness`:
/// the candidate replaces the record only when it scores strictly higher.
pub fn keep_best(best: Option<BestSoFar>, candidate: &Settings, fitness: usize) -> (r: BestSoFar)
    ensures
        best matches Some(b) ==> r.fitness >= b.fitness,
        r.fitness >= fitness,
        best matches Some(b) ==> (if fitness > b.fitness {
            r.fitness == fitness && r.settings@ == candidate@
        } else {
            r.fitness == b.fitness && r.settings@ == b.settings@
        }),
        best is None ==> r.fitness == fitness && r.settings@ == candidate@,
{
    match best {
        Some(b) => {
            if fitness > b.fitness {
                BestSoFar { settings: candidate.clone(), fitness }
            } else {
                b
            }
        },
        None => BestSoFar { settings: candidate.clone(), fitness },
    }
}

/// The best fitness kept over a run never decreases: recording any sequence
/// of generation bests, one after the other, gives a record whose fitness is
/// at least that of every earlier record.
pub open spec fn best_after(start: int, bests: Seq<usize>) -> int
    decreases bests.len(),
{
    if bests.len() == 0 {
        start
    } else {
        let prev = best_after(start, bests.drop_last());
        if bests.last() > prev {
            bests.last() as int
        } else {
            prev
        }
    }
}

/// The record kept after a run of generations is at least the record after
/// any prefix of them, and at least every generation's best.
pub proof fn lemma_best_never_decreases(start: int, bests: Seq<usize>, k: int)
    requires
        0 <= k <= bests.len(),
    ensures
        best_after(start, bests.subrange(0, k)) <= best_after(start, bests),
        forall|i: int| 0 <= i < bests.len() ==> bests[i] <= best_after(start, bests),
    decreases bests.len(),
{
    if bests.len() > 0 {
        let p = bests.drop_last();
        if k == bests.len() {
            assert(bests.subrange(0, k) =~= bests);
        } else {
            assert(bests.subrange(0, k) =~= p.subrange(0, k));
        }
        lemma_best_never_decreases(start, p, if k == bests.len() { p.len() as int } else { k });
        assert forall|i: int| 0 <= i < bests.len() implies bests[i] <= best_after(start, bests) by {
            if i < p.len() {
                assert(bests[i] == p[i]);
            }
        }
    }
}

} // verus!
