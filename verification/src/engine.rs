//! Carrying out a plan: one action at a time, each decided by how the one
//! before it went.

use vstd::prelude::*;
use crate::error::{Error, ErrorView};
use crate::text::text_of;
use crate::transfer::{Plan, Step, Transfer, TransferPlan};

verus! {

/// Something to do on disk or to tell the user.
#[derive(Debug, Clone, PartialEq, Eq)]
pub enum Action {
    /// Remove the directory `path` with all it holds.
    Remove { path: String },
    /// Copy what the directory `from` holds into the directory `to`.
    Copy { from: String, to: String },
    /// Tell the user that a world has been copied.
    Report { line: String },
}

/// An [`Action`] as texts.
pub ghost enum ActionView {
    Remove { path: Seq<char> },
    Copy { from: Seq<char>, to: Seq<char> },
    Report { line: Seq<char> },
}

impl View for Action {
    type V = ActionView;

    open spec fn view(&self) -> ActionView {
        match *self {
            Action::Remove { path } => ActionView::Remove { path: path@ },
            Action::Copy { from, to } => ActionView::Copy { from: from@, to: to@ },
            Action::Report { line } => ActionView::Report { line: line@ },
        }
    }
}

/// What a run is waiting for.
#[derive(Debug, Clone, Copy, PartialEq, Eq, Structural)]
pub enum Stage {
    /// Nothing: the next transfer can begin.
    Ready,
    /// The removal of the destination of the current transfer.
    Removing,
    /// The copy of the current transfer.
    Copying,
    /// The report of the current transfer.
    Reporting,
}

/// A plan that is being carried out.
#[derive(Debug)]
pub struct TransferRun {
    plan: TransferPlan,
    at: usize,
    stage: Stage,
}

/// A [`TransferRun`] as texts: the plan, the place of the current transfer
/// in it, and what the run is waiting for.
pub ghost struct Run {
    pub plan: Plan,
    pub at: int,
    pub stage: Stage,
}

/// Where a run stands after a move: at the next action, or at its end.
#[derive(Debug)]
pub enum Progress {
    /// An action to perform, and the run to go on with once that is done.
    Next(Action, TransferRun),
    /// The end of the run, and how it ended.
    Done(Result<(), Error>),
}

/// A [`Progress`] as texts.
pub ghost enum ProgressView {
    Next(ActionView, Run),
    Done(Result<(), ErrorView>),
}

impl Plan {
    /// How a run ends that has done every step: with the error of the plan,
    /// if it has one.
    pub open spec fn ending(self) -> Result<(), ErrorView> {
        match self.halt {
            Some(error) => Err(error),
            None => Ok(()),
        }
    }
}

impl Step {
    /// The removal that a step begins with, if it replaces its destination.
    pub open spec fn removal(self) -> ActionView {
        ActionView::Remove { path: self.to }
    }

    /// The copy of a step.
    pub open spec fn copy(self) -> ActionView {
        ActionView::Copy { from: self.from, to: self.to }
    }

    /// The report of a step.
    pub open spec fn report(self) -> ActionView {
        ActionView::Report { line: self.log_line() }
    }
}

impl Run {
    /// The current transfer lies within the plan, unless the run is ready
    /// and has done them all.
    pub open spec fn wf(self) -> bool {
        &&& 0 <= self.at <= self.plan.steps.len()
        &&& self.stage != Stage::Ready ==> self.at < self.plan.steps.len()
    }

    /// The same run, waiting for `stage`.
    pub open spec fn waiting_for(self, stage: Stage) -> Run {
        Run { plan: self.plan, at: self.at, stage }
    }

    /// The move of a run that is ready: it ends if no transfer is left, and
    /// else begins the current transfer, with the removal of its destination
    /// if that is to be replaced, with the copy if not.
    pub open spec fn begun(self) -> ProgressView {
        if self.at >= self.plan.steps.len() {
            ProgressView::Done(self.plan.ending())
        } else if self.plan.steps[self.at].replace {
            ProgressView::Next(
                self.plan.steps[self.at].removal(),
                self.waiting_for(Stage::Removing),
            )
        } else {
            ProgressView::Next(self.plan.steps[self.at].copy(), self.waiting_for(Stage::Copying))
        }
    }

    /// The next move of a run. `failure` says why the action that the run is
    /// waiting for failed, if it did.
    ///
    /// A removal or a copy that failed ends the run with the error for it.
    /// Else the removal is followed by the copy, the copy by the report, and
    /// the report by the next transfer.
    pub open spec fn advanced(self, failure: Option<Seq<char>>) -> ProgressView {
        let step = self.plan.steps[self.at];
        match self.stage {
            Stage::Ready => self.begun(),
            Stage::Removing => match failure {
                Some(source) => ProgressView::Done(
                    Err(ErrorView::WorldAccessFailure { source, path: step.to }),
                ),
                None => ProgressView::Next(step.copy(), self.waiting_for(Stage::Copying)),
            },
            Stage::Copying => match failure {
                Some(source) => ProgressView::Done(
                    Err(ErrorView::WorldCopyFailure { source, from: step.from, to: step.to }),
                ),
                None => ProgressView::Next(step.report(), self.waiting_for(Stage::Reporting)),
            },
            Stage::Reporting => (Run { plan: self.plan, at: self.at + 1, stage: Stage::Ready })
                .begun(),
        }
    }
}

impl View for TransferRun {
    type V = Run;

    closed spec fn view(&self) -> Run {
        Run { plan: self.plan@, at: self.at as int, stage: self.stage }
    }
}

impl View for Progress {
    type V = ProgressView;

    open spec fn view(&self) -> ProgressView {
        match *self {
            Progress::Next(action, run) => ProgressView::Next(action@, run@),
            Progress::Done(Ok(())) => ProgressView::Done(Ok(())),
            Progress::Done(Err(error)) => ProgressView::Done(Err(error@)),
        }
    }
}

impl TransferPlan {
    /// Begins to carry out the plan. Nothing is done yet: the first move of
    /// the run says what to do first.
    pub fn start(self) -> (run: TransferRun)
        ensures
            run@ == (Run { plan: self@, at: 0, stage: Stage::Ready }),
            run@.wf(),
    {
        TransferRun { plan: self, at: 0, stage: Stage::Ready }
    }
}

impl TransferRun {
    #[verifier::type_invariant]
    spec fn valid(self) -> bool {
        self@.wf()
    }

    /// The copy of `transfer`.
    fn copy_of(transfer: &Transfer) -> (action: Action)
        ensures
            action@ == transfer@.copy(),
    {
        Action::Copy { from: transfer.from.clone(), to: transfer.to.clone() }
    }

    /// The move of a run that is ready.
    fn begin(plan: TransferPlan, at: usize) -> (progress: Progress)
        requires
            at <= plan.transfers.len(),
        ensures
            progress@ == (Run { plan: plan@, at: at as int, stage: Stage::Ready }).begun(),
            progress matches Progress::Next(_, run) ==> run@.wf(),
    {
        if at >= plan.transfers.len() {
            match plan.halt {
                Some(error) => Progress::Done(Err(error)),
                None => Progress::Done(Ok(())),
            }
        } else if plan.transfers[at].replace {
            let action = Action::Remove { path: plan.transfers[at].to.clone() };
            Progress::Next(action, TransferRun { plan, at, stage: Stage::Removing })
        } else {
            let action = TransferRun::copy_of(&plan.transfers[at]);
            Progress::Next(action, TransferRun { plan, at, stage: Stage::Copying })
        }
    }

    /// Makes the next move: the next action and the run to go on with, or
    /// the end of the run. `failure` says why the action that the run is
    /// waiting for failed, if it did; the first move waits for none.
    pub fn advance(self, failure: Option<String>) -> (progress: Progress)
        ensures
            progress@ == self@.advanced(text_of(failure)),
            progress matches Progress::Next(_, run) ==> run@.wf(),
    {
        proof {
            use_type_invariant(&self);
        }
        let TransferRun { plan, at, stage } = self;
        match stage {
            Stage::Ready => TransferRun::begin(plan, at),
            Stage::Removing => match failure {
                Some(source) => Progress::Done(Err(plan.transfers[at].access_failure(source))),
                None => {
                    let action = TransferRun::copy_of(&plan.transfers[at]);
                    Progress::Next(action, TransferRun { plan, at, stage: Stage::Copying })
                },
            },
            Stage::Copying => match failure {
                Some(source) => Progress::Done(Err(plan.transfers[at].copy_failure(source))),
                None => {
                    let action = Action::Report { line: plan.transfers[at].log_line() };
                    Progress::Next(action, TransferRun { plan, at, stage: Stage::Reporting })
                },
            },
            Stage::Reporting => TransferRun::begin(plan, at + 1),
        }
    }
}

} // verus!
