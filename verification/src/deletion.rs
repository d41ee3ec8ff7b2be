//! Deleting a stored file: first its bytes, then its record.
//!
//! The deletion goes by the content store: a file without an entry there is
//! not found, whatever the index says, and the record is dropped only once the
//! entry is gone.

use vstd::prelude::*;
use crate::error::unit_outcome;
use crate::error::ErrorView;
use crate::error::ManagerError;
use crate::protocol::Reply;
use crate::protocol::ReplyView;
use crate::protocol::Request;
use crate::protocol::RequestView;

verus! {

/// What a deletion is waiting for.
#[derive(Clone, Copy, Debug, PartialEq, Eq, Structural)]
pub enum DeletionStage {
    /// Whether the store holds an entry under the id.
    ProbeStore,
    /// The removal of the entry.
    Remove,
    /// The removal of the record.
    Forget,
}

/// A deletion under way.
#[derive(Debug)]
pub struct Deletion {
    stage: DeletionStage,
    id: String,
}

/// Mathematical value of a `Deletion`.
pub struct DeletionView {
    pub stage: DeletionStage,
    pub id: Seq<char>,
}

impl View for Deletion {
    type V = DeletionView;

    closed spec fn view(&self) -> DeletionView {
        DeletionView { stage: self.stage, id: self.id@ }
    }
}

/// Where a deletion stands after a step.
#[derive(Debug)]
pub enum DeletionStep {
    Ask(Deletion, Request),
    Done(Result<(), ManagerError>),
}

/// Mathematical value of a `DeletionStep`.
pub enum DeletionStepView {
    Ask(DeletionView, RequestView),
    Done(Result<(), ErrorView>),
}

impl View for DeletionStep {
    type V = DeletionStepView;

    open spec fn view(&self) -> DeletionStepView {
        match self {
            DeletionStep::Ask(deletion, request) => DeletionStepView::Ask(deletion@, request@),
            DeletionStep::Done(outcome) => DeletionStepView::Done(unit_outcome(*outcome)),
        }
    }
}

/// The first step of deleting the file `id`: it asks the store whether it
/// holds the file.
pub open spec fn deletion_start(id: Seq<char>) -> DeletionStepView {
    DeletionStepView::Ask(
        DeletionView { stage: DeletionStage::ProbeStore, id },
        RequestView::StoreExists(id),
    )
}

/// The step that a deletion in `state` takes on `reply`. A reply that does
/// not answer the pending request counts as that request's failure; of the
/// first request, as the answer that there is no entry.
pub open spec fn deletion_step(state: DeletionView, reply: ReplyView) -> DeletionStepView {
    match state.stage {
        DeletionStage::ProbeStore => match reply {
            ReplyView::Flag(true) => DeletionStepView::Ask(
                DeletionView { stage: DeletionStage::Remove, ..state },
                RequestView::StoreDelete(state.id),
            ),
            _ => DeletionStepView::Done(Err(ErrorView::FileNotFound)),
        },
        DeletionStage::Remove => match reply {
            ReplyView::Done => DeletionStepView::Ask(
                DeletionView { stage: DeletionStage::Forget, ..state },
                RequestView::IndexDeleteById(state.id),
            ),
            _ => DeletionStepView::Done(Err(ErrorView::FailedToDelete)),
        },
        DeletionStage::Forget => match reply {
            ReplyView::Done => DeletionStepView::Done(Ok(())),
            _ => DeletionStepView::Done(Err(ErrorView::QueryFailed)),
        },
    }
}

impl Deletion {
    /// Begins the deletion of the file `id`.
    pub fn start(id: &str) -> (step: DeletionStep)
        ensures
            step@ == deletion_start(id@),
    {
        DeletionStep::Ask(
            Deletion { stage: DeletionStage::ProbeStore, id: id.to_owned() },
            Request::StoreExists(id.to_owned()),
        )
    }

    /// Takes the step on `reply`.
    pub fn advance(self, reply: Reply) -> (step: DeletionStep)
        ensures
            step@ == deletion_step(self@, reply@),
    {
        let Deletion { stage, id } = self;
        match stage {
            DeletionStage::ProbeStore => match reply {
                Reply::Flag(true) => {
                    let request = Request::StoreDelete(id.clone());
                    DeletionStep::Ask(Deletion { stage: DeletionStage::Remove, id }, request)
                },
                _ => DeletionStep::Done(Err(ManagerError::FileNotFound)),
            },
            DeletionStage::Remove => match reply {
                Reply::Done => {
                    let request = Request::IndexDeleteById(id.clone());
                    DeletionStep::Ask(Deletion { stage: DeletionStage::Forget, id }, request)
                },
                _ => DeletionStep::Done(Err(ManagerError::FailedToDelete)),
            },
            DeletionStage::Forget => match reply {
                Reply::Done => DeletionStep::Done(Ok(())),
                _ => DeletionStep::Done(Err(ManagerError::QueryFailed)),
            },
        }
    }
}

} // verus!
