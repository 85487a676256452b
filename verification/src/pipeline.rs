//! The steps of a content update, the order in which they run, and what the
//! failure of each means for the update.
//!
//! The stores commit one by one, so an update is a sequence of steps with a
//! policy for each: a failed read of the prior content is passed over, a
//! failed write or a failed metadata update aborts, and from there on no
//! failure counts.

use vstd::prelude::*;

verus! {

/// A step of a content update; `Done` when none is left.
#[derive(Debug, PartialEq, Eq, Structural)]
pub enum Stage {
    ReadPriorContent,
    WriteNewContent,
    UpdateMetadata,
    MaybeSnapshot,
    Prune,
    ReindexSearch,
    Done,
}

impl Clone for Stage {
    fn clone(&self) -> (r: Self)
        ensures
            r == *self,
    {
        match self {
            Stage::ReadPriorContent => Stage::ReadPriorContent,
            Stage::WriteNewContent => Stage::WriteNewContent,
            Stage::UpdateMetadata => Stage::UpdateMetadata,
            Stage::MaybeSnapshot => Stage::MaybeSnapshot,
            Stage::Prune => Stage::Prune,
            Stage::ReindexSearch => Stage::ReindexSearch,
            Stage::Done => Stage::Done,
        }
    }
}

impl Copy for Stage {

}

impl Stage {
    /// The place of a step in the order of the steps.
    pub open spec fn order(self) -> nat {
        match self {
            Stage::ReadPriorContent => 0,
            Stage::WriteNewContent => 1,
            Stage::UpdateMetadata => 2,
            Stage::MaybeSnapshot => 3,
            Stage::Prune => 4,
            Stage::ReindexSearch => 5,
            Stage::Done => 6,
        }
    }

    /// Tells whether the failure of the step aborts the update.
    pub open spec fn aborts_on_failure(self) -> bool {
        self is WriteNewContent || self is UpdateMetadata
    }
}

/// The step that follows `stage`, or nothing when the update is aborted.
/// For `MaybeSnapshot`, `snapshot_due` tells whether a snapshot was due:
/// pruning follows only then.
pub open spec fn following(stage: Stage, succeeded: bool, snapshot_due: bool) -> Option<Stage> {
    match stage {
        Stage::ReadPriorContent => Some(Stage::WriteNewContent),
        Stage::WriteNewContent => if succeeded {
            Some(Stage::UpdateMetadata)
        } else {
            None
        },
        Stage::UpdateMetadata => if succeeded {
            Some(Stage::MaybeSnapshot)
        } else {
            None
        },
        Stage::MaybeSnapshot => if snapshot_due {
            Some(Stage::Prune)
        } else {
            Some(Stage::ReindexSearch)
        },
        Stage::Prune => Some(Stage::ReindexSearch),
        Stage::ReindexSearch => Some(Stage::Done),
        Stage::Done => Some(Stage::Done),
    }
}

/// Decides what follows a step that succeeded or failed.
pub fn advance(stage: Stage, succeeded: bool, snapshot_due: bool) -> (next: Option<Stage>)
    ensures
        next == following(stage, succeeded, snapshot_due),
{
    match stage {
        Stage::ReadPriorContent => Some(Stage::WriteNewContent),
        Stage::WriteNewContent => if succeeded {
            Some(Stage::UpdateMetadata)
        } else {
            None
        },
        Stage::UpdateMetadata => if succeeded {
            Some(Stage::MaybeSnapshot)
        } else {
            None
        },
        Stage::MaybeSnapshot => if snapshot_due {
            Some(Stage::Prune)
        } else {
            Some(Stage::ReindexSearch)
        },
        Stage::Prune => Some(Stage::ReindexSearch),
        Stage::ReindexSearch => Some(Stage::Done),
        Stage::Done => Some(Stage::Done),
    }
}

/// How each step of one update turns out, if it runs.
#[derive(Debug)]
pub struct StepOutcomes {
    pub read_prior: bool,
    pub write: bool,
    pub metadata: bool,
    pub snapshot_due: bool,
    pub snapshot: bool,
    pub prune: bool,
    pub reindex: bool,
}

/// Tells whether `stage` succeeds under `o`.
pub open spec fn outcome_of(stage: Stage, o: StepOutcomes) -> bool {
    match stage {
        Stage::ReadPriorContent => o.read_prior,
        Stage::WriteNewContent => o.write,
        Stage::UpdateMetadata => o.metadata,
        Stage::MaybeSnapshot => o.snapshot,
        Stage::Prune => o.prune,
        Stage::ReindexSearch => o.reindex,
        Stage::Done => true,
    }
}

/// Where an update stands after at most `steps` steps from `stage`, or
/// nothing when it was aborted.
pub open spec fn run_from(stage: Stage, o: StepOutcomes, steps: nat) -> Option<Stage>
    decreases steps,
{
    if steps == 0 || stage is Done {
        Some(stage)
    } else {
        match following(stage, outcome_of(stage, o), o.snapshot_due) {
            Some(next) => run_from(next, o, (steps - 1) as nat),
            None => None,
        }
    }
}

/// Tells whether an update runs to its end under `o`.
pub open spec fn completes(o: StepOutcomes) -> bool {
    run_from(Stage::ReadPriorContent, o, 6) == Some(Stage::Done)
}

/// Tells whether `stage` succeeds under `o`.
fn outcome(stage: Stage, o: &StepOutcomes) -> (ok: bool)
    ensures
        ok == outcome_of(stage, *o),
{
    match stage {
        Stage::ReadPriorContent => o.read_prior,
        Stage::WriteNewContent => o.write,
        Stage::UpdateMetadata => o.metadata,
        Stage::MaybeSnapshot => o.snapshot,
        Stage::Prune => o.prune,
        Stage::ReindexSearch => o.reindex,
        Stage::Done => true,
    }
}

/// Runs the steps of an update under the given outcomes and tells whether
/// it reaches its end: it does exactly when the write and the metadata
/// update succeed.
pub fn run(o: &StepOutcomes) -> (done: bool)
    ensures
        done == completes(*o),
        done == (o.write && o.metadata),
{
    let mut stage = Stage::ReadPriorContent;
    let mut left: u8 = 6;
    proof {
        lemma_completes(*o);
    }
    while left > 0 && stage != Stage::Done
        invariant
            left <= 6,
            stage.order() + left >= 6,
            run_from(stage, *o, left as nat) == run_from(Stage::ReadPriorContent, *o, 6),
        decreases left,
    {
        match advance(stage, outcome(stage, o), o.snapshot_due) {
            Some(next) => {
                stage = next;
                left = left - 1;
            },
            None => {
                return false;
            },
        }
    }
    stage == Stage::Done
}

/// An update is aborted by a failed write or a failed metadata update and
/// by nothing else: a failure of any other step is passed over.
pub proof fn lemma_only_write_and_metadata_abort(stage: Stage, succeeded: bool, snapshot_due: bool)
    ensures
        following(stage, succeeded, snapshot_due) is None <==> stage.aborts_on_failure() && !succeeded,
{
}

/// Each step leads to a later one, so that an update ends after six steps
/// at most.
pub proof fn lemma_steps_go_forward(stage: Stage, succeeded: bool, snapshot_due: bool)
    requires
        !(stage is Done),
    ensures
        following(stage, succeeded, snapshot_due) matches Some(next) ==> next.order() > stage.order(),
{
}

/// An update is reported successful exactly when its write and its
/// metadata update succeed: whether the prior content could be read,
/// whether a snapshot was due, taken and pruned, and whether the search
/// index followed changes nothing of that.
pub proof fn lemma_completes(o: StepOutcomes)
    ensures
        completes(o) <==> o.write && o.metadata,
{
    reveal_with_fuel(run_from, 7);
}

/// Once the metadata update has succeeded, the update runs to its end
/// whatever the later steps do.
pub proof fn lemma_settled_after_metadata(o: StepOutcomes)
    ensures
        run_from(Stage::MaybeSnapshot, o, 4) == Some(Stage::Done),
{
    reveal_with_fuel(run_from, 5);
}

} // verus!
