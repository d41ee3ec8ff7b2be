//! Listing the stored files, one page at a time.
//!
//! A listing asks the index for the number of all records and then for the
//! records of one page. Pages are numbered from 1 and hold `PAGE_SIZE` files.

use vstd::prelude::*;
use crate::error::ErrorView;
use crate::error::ManagerError;
use crate::protocol::DatabaseFile;
use crate::protocol::FileView;
use crate::protocol::Reply;
use crate::protocol::ReplyView;
use crate::protocol::Request;
use crate::protocol::RequestView;
use crate::protocol::PAGE_SIZE;

verus! {

/// Position in the index of the first file of page `page`.
pub open spec fn page_offset(page: int) -> int {
    PAGE_SIZE * (page - 1)
}

/// What a listing is waiting for.
#[derive(Debug)]
pub enum Listing {
    /// The number of records; `offset` is where the page starts.
    Count { offset: u64 },
    /// The records of the page; `total` is the number of all records.
    Page { total: i64 },
}

/// Mathematical value of the outcome of a listing.
pub open spec fn listing_outcome(outcome: Result<(i64, Vec<DatabaseFile>), ManagerError>) -> Result<
    (i64, Seq<FileView>),
    ErrorView,
> {
    match outcome {
        Ok((total, files)) => Ok((total, files.deep_view())),
        Err(e) => Err(e@),
    }
}

/// Where a listing stands after a step.
#[derive(Debug)]
pub enum ListingStep {
    Ask(Listing, Request),
    Done(Result<(i64, Vec<DatabaseFile>), ManagerError>),
}

/// Mathematical value of a `ListingStep`.
pub enum ListingStepView {
    Ask(Listing, RequestView),
    Done(Result<(i64, Seq<FileView>), ErrorView>),
}

impl View for ListingStep {
    type V = ListingStepView;

    open spec fn view(&self) -> ListingStepView {
        match self {
            ListingStep::Ask(listing, request) => ListingStepView::Ask(*listing, request@),
            ListingStep::Done(outcome) => ListingStepView::Done(listing_outcome(*outcome)),
        }
    }
}

/// The first step of listing page `page`: it asks the index for the number
/// of records.
pub open spec fn listing_start(page: int) -> ListingStepView {
    ListingStepView::Ask(
        Listing::Count { offset: page_offset(page) as u64 },
        RequestView::IndexCount,
    )
}

/// The step that a listing in `state` takes on `reply`. A reply that does
/// not answer the pending request counts as that request's failure.
pub open spec fn listing_step(state: Listing, reply: ReplyView) -> ListingStepView {
    match state {
        Listing::Count { offset } => match reply {
            ReplyView::Count(total) => ListingStepView::Ask(
                Listing::Page { total },
                RequestView::IndexList { limit: PAGE_SIZE, offset },
            ),
            _ => ListingStepView::Done(Err(ErrorView::QueryFailed)),
        },
        Listing::Page { total } => match reply {
            ReplyView::Files(files) => ListingStepView::Done(Ok((total, files))),
            _ => ListingStepView::Done(Err(ErrorView::QueryFailed)),
        },
    }
}

impl Listing {
    /// Begins the listing of page `page`.
    pub fn start(page: usize) -> (step: ListingStep)
        requires
            1 <= page,
            page_offset(page as int) <= u64::MAX,
        ensures
            step@ == listing_start(page as int),
    {
        let offset = (PAGE_SIZE as u64) * ((page - 1) as u64);
        ListingStep::Ask(Listing::Count { offset }, Request::IndexCount)
    }

    /// Takes the step on `reply`.
    pub fn advance(self, reply: Reply) -> (step: ListingStep)
        ensures
            step@ == listing_step(self, reply@),
    {
        match self {
            Listing::Count { offset } => match reply {
                Reply::Count(total) => ListingStep::Ask(
                    Listing::Page { total },
                    Request::IndexList { limit: PAGE_SIZE, offset },
                ),
                _ => ListingStep::Done(Err(ManagerError::QueryFailed)),
            },
            Listing::Page { total } => match reply {
                Reply::Files(files) => ListingStep::Done(Ok((total, files))),
                _ => ListingStep::Done(Err(ManagerError::QueryFailed)),
            },
        }
    }
}

} // verus!
