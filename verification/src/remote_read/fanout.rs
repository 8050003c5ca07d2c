//! One query of a distributed read from its selections to its result: which step comes next, and
//! that a step that fails ends it.

use vstd::prelude::*;

use crate::remote_read::errors::ReadFanoutError;

verus! {

/// A step of a distributed query.
#[derive(Debug, Clone, Copy, PartialEq, Eq, Structural)]
pub enum FanoutStep {
    /// Make the selections of the query, and scope them to the tenant.
    Prepare,
    /// Begin a reservation for the union of the series.
    ReserveUnion,
    /// Ask the query budget whether to go on, before a selection, by its place.
    Checkpoint(usize),
    /// Ask the nodes for the series of a selection, by its place.
    SelectSeries(usize),
    /// Merge what the nodes answered to a selection, by its place, into the union.
    MergeSeries(usize),
    /// Close the union.
    FinishUnion,
    /// Give back what is reserved for the selections.
    ReleaseSelections,
    /// Reserve bytes for what is said of the read.
    ReserveMetadata,
    /// Ask the nodes for the points of the series.
    SelectPoints,
    /// Merge what is said of the points into what is said of the read.
    MergeMetadata,
    /// Check that what the nodes answered is accounted for.
    CheckPoints,
    /// Make the result.
    BuildResult,
    /// Nothing: the query is over.
    Finished,
}

/// How a step came out.
#[derive(Debug, PartialEq, Eq)]
pub enum FanoutEvent {
    /// The selections were made, so many of them.
    Prepared(usize),
    /// The step succeeded.
    Passed,
    /// The step failed.
    Failed(ReadFanoutError),
}

/// What comes next.
#[derive(Debug, PartialEq, Eq)]
pub enum FanoutAction {
    /// Take a step.
    Do(FanoutStep),
    /// The result stands.
    Answer,
    /// The query failed.
    Fail(ReadFanoutError),
}

/// A distributed query under way: the step it is at, and how many selections it has.
#[derive(Debug)]
pub struct DistributedQuery {
    pub step: FanoutStep,
    pub selections: usize,
}

/// The step for the selection at a place, or the one behind the last selection.
pub open spec fn selection_step(selections: usize, place: int) -> FanoutStep {
    if place < selections {
        FanoutStep::Checkpoint(place as usize)
    } else {
        FanoutStep::FinishUnion
    }
}

impl DistributedQuery {
    /// Whether the selection that is under way is one of the query.
    pub open spec fn well_formed(self) -> bool {
        match self.step {
            FanoutStep::Checkpoint(place) => place < self.selections,
            FanoutStep::SelectSeries(place) => place < self.selections,
            FanoutStep::MergeSeries(place) => place < self.selections,
            _ => true,
        }
    }

    /// Whether an event can be that of the step under way.
    pub open spec fn fits(self, event: FanoutEvent) -> bool {
        match event {
            FanoutEvent::Prepared(_) => self.step is Prepare,
            FanoutEvent::Passed => !(self.step is Prepare) && !(self.step is Finished),
            FanoutEvent::Failed(_) => !(self.step is Finished),
        }
    }

    /// The step behind the one under way, where that succeeds.
    pub open spec fn following(self) -> FanoutStep {
        match self.step {
            FanoutStep::Prepare => FanoutStep::ReserveUnion,
            FanoutStep::ReserveUnion => selection_step(self.selections, 0),
            FanoutStep::Checkpoint(place) => FanoutStep::SelectSeries(place),
            FanoutStep::SelectSeries(place) => FanoutStep::MergeSeries(place),
            FanoutStep::MergeSeries(place) => selection_step(self.selections, place + 1),
            FanoutStep::FinishUnion => FanoutStep::ReleaseSelections,
            FanoutStep::ReleaseSelections => FanoutStep::ReserveMetadata,
            FanoutStep::ReserveMetadata => FanoutStep::SelectPoints,
            FanoutStep::SelectPoints => FanoutStep::MergeMetadata,
            FanoutStep::MergeMetadata => FanoutStep::CheckPoints,
            FanoutStep::CheckPoints => FanoutStep::BuildResult,
            FanoutStep::BuildResult => FanoutStep::Finished,
            FanoutStep::Finished => FanoutStep::Finished,
        }
    }

    /// The query after an event that fits.
    pub open spec fn after(self, event: FanoutEvent) -> DistributedQuery {
        match event {
            FanoutEvent::Prepared(selections) => DistributedQuery {
                step: FanoutStep::ReserveUnion,
                selections,
            },
            FanoutEvent::Passed => DistributedQuery { step: self.following(), ..self },
            FanoutEvent::Failed(_) => DistributedQuery { step: FanoutStep::Finished, ..self },
        }
    }

    /// What comes next after an event that fits.
    pub open spec fn action(self, event: FanoutEvent) -> FanoutAction {
        match event {
            FanoutEvent::Failed(error) => FanoutAction::Fail(error),
            _ => if self.after(event).step is Finished {
                FanoutAction::Answer
            } else {
                FanoutAction::Do(self.after(event).step)
            },
        }
    }

    /// A query at its first step.
    pub fn new() -> (query: DistributedQuery)
        ensures
            query.well_formed(),
            query.step is Prepare,
            query.selections == 0,
    {
        DistributedQuery { step: FanoutStep::Prepare, selections: 0 }
    }

    fn selection_at(&self, place: usize) -> (step: FanoutStep)
        ensures
            step == selection_step(self.selections, place as int),
    {
        if place < self.selections {
            FanoutStep::Checkpoint(place)
        } else {
            FanoutStep::FinishUnion
        }
    }

    fn next_step(&self) -> (step: FanoutStep)
        requires
            self.well_formed(),
        ensures
            step == self.following(),
    {
        match self.step {
            FanoutStep::Prepare => FanoutStep::ReserveUnion,
            FanoutStep::ReserveUnion => self.selection_at(0),
            FanoutStep::Checkpoint(place) => FanoutStep::SelectSeries(place),
            FanoutStep::SelectSeries(place) => FanoutStep::MergeSeries(place),
            FanoutStep::MergeSeries(place) => self.selection_at(place + 1),
            FanoutStep::FinishUnion => FanoutStep::ReleaseSelections,
            FanoutStep::ReleaseSelections => FanoutStep::ReserveMetadata,
            FanoutStep::ReserveMetadata => FanoutStep::SelectPoints,
            FanoutStep::SelectPoints => FanoutStep::MergeMetadata,
            FanoutStep::MergeMetadata => FanoutStep::CheckPoints,
            FanoutStep::CheckPoints => FanoutStep::BuildResult,
            FanoutStep::BuildResult => FanoutStep::Finished,
            FanoutStep::Finished => FanoutStep::Finished,
        }
    }

    /// Takes the event of the step under way and says what comes next; an event that cannot be that
    /// of the step changes nothing.
    pub fn advance(&mut self, event: FanoutEvent) -> (action: Option<FanoutAction>)
        requires
            old(self).well_formed(),
        ensures
            final(self).well_formed(),
            action is Some <==> old(self).fits(event),
            match action {
                None => *final(self) == *old(self),
                Some(next) => *final(self) == old(self).after(event) && next == old(self).action(
                    event,
                ),
            },
    {
        if let FanoutStep::Finished = self.step {
            return None;
        }
        let preparing = match self.step {
            FanoutStep::Prepare => true,
            _ => false,
        };
        match event {
            FanoutEvent::Failed(error) => {
                self.step = FanoutStep::Finished;
                Some(FanoutAction::Fail(error))
            },
            FanoutEvent::Prepared(selections) => {
                if !preparing {
                    return None;
                }
                self.selections = selections;
                self.step = FanoutStep::ReserveUnion;
                Some(FanoutAction::Do(FanoutStep::ReserveUnion))
            },
            FanoutEvent::Passed => {
                if preparing {
                    return None;
                }
                let next = self.next_step();
                self.step = next;
                if let FanoutStep::Finished = next {
                    return Some(FanoutAction::Answer);
                }
                Some(FanoutAction::Do(next))
            },
        }
    }
}

/// A query once its selections were made and so many steps succeeded since.
pub open spec fn passed_steps(selections: usize, steps: nat) -> DistributedQuery
    decreases steps,
{
    if steps == 0 {
        DistributedQuery { step: FanoutStep::ReserveUnion, selections }
    } else {
        passed_steps(selections, (steps - 1) as nat).after(FanoutEvent::Passed)
    }
}

/// The step that stands so many places behind the last selection.
pub open spec fn closing_step(place: int) -> FanoutStep {
    if place == 0 {
        FanoutStep::FinishUnion
    } else if place == 1 {
        FanoutStep::ReleaseSelections
    } else if place == 2 {
        FanoutStep::ReserveMetadata
    } else if place == 3 {
        FanoutStep::SelectPoints
    } else if place == 4 {
        FanoutStep::MergeMetadata
    } else if place == 5 {
        FanoutStep::CheckPoints
    } else if place == 6 {
        FanoutStep::BuildResult
    } else {
        FanoutStep::Finished
    }
}

/// The steps of a query that succeeds are in one order: each selection in its turn is asked for and
/// merged, once the budget let it pass, before the next one; then the union is closed, what the
/// selections hold is given back, and only then are points asked for, with what is said of the read
/// reserved for; and the result is made last, from what was merged and checked.
pub proof fn lemma_steps_in_order(selections: usize, steps: nat)
    ensures
        ({
            let at = passed_steps(selections, steps);
            &&& at.selections == selections
            &&& at.well_formed()
            &&& steps == 0 ==> at.step is ReserveUnion
            &&& 0 < steps <= 3 * selections ==> {
                let place = ((steps - 1) / 3) as usize;
                &&& (steps - 1) % 3 == 0 ==> at.step == FanoutStep::Checkpoint(place)
                &&& (steps - 1) % 3 == 1 ==> at.step == FanoutStep::SelectSeries(place)
                &&& (steps - 1) % 3 == 2 ==> at.step == FanoutStep::MergeSeries(place)
            }
            &&& steps > 3 * selections ==> at.step == closing_step(steps - 1 - 3 * selections)
        }),
    decreases steps,
{
    if steps > 0 {
        lemma_steps_in_order(selections, (steps - 1) as nat);
    }
}

/// A step that fails ends the query, and what went wrong is passed on as it is.
pub proof fn lemma_failure_ends_query(
    before: DistributedQuery,
    error: ReadFanoutError,
    later: FanoutEvent,
)
    requires
        !(before.step is Finished),
    ensures
        before.action(FanoutEvent::Failed(error)) == FanoutAction::Fail(error),
        !before.after(FanoutEvent::Failed(error)).fits(later),
{
}

} // verus!
