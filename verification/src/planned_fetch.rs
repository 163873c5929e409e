//! A fetch that a backend planner serves: up to two turns of the page service
//! run for it before the owner of the fetch looks what came of them.

use crate::container::{ContainerView, FilePageFetchId, MaterializeAccess, PageContainer};
use crate::ids::{Errno, PageIndex, PageIoRequestId};
use crate::materialize::PinGrants;
use crate::page_access::AccessTurn;
use crate::service::{
    file_service_terminal_error_for_request, file_service_work_waits_for_async_completion,
    items_bios, lemma_served_bound, terminal_error, waits_for_completion,
    FileBlockSubmissionTarget, PageServiceBackendDriven, PageServiceNext, ServiceItem,
    ServiceItemEnd,
};
use vstd::prelude::*;

verus! {

/// One turn of the page service, with the outside answers to it.
#[derive(Debug)]
pub struct ServiceTurn {
    pub items: Vec<ServiceItem>,
    /// Whether the service has more to do afterwards.
    pub runnable: bool,
    /// Whether the kick that this calls for was accepted.
    pub accepted: bool,
}

/// What the outside world answers while a planner serves a fetch. The second
/// turn is run only if the first left more to do.
#[derive(Debug)]
pub struct DriveReplies {
    pub first: ServiceTurn,
    pub second: ServiceTurn,
    pub pins: PinGrants,
    /// A page wait source of its own.
    pub fresh: u64,
}

impl DriveReplies {
    /// The number of transfers that the turns may queue.
    pub open spec fn bios(self) -> nat {
        items_bios(self.first.items@) + items_bios(self.second.items@)
    }
}

/// What the turns for a fetch came to.
#[derive(Debug)]
pub struct FetchDrive {
    /// The error that the planner gave the request of the fetch.
    pub failed: Option<Errno>,
    /// Whether transfers were queued whose end comes later.
    pub waits: bool,
    pub work: Vec<ServiceItemEnd>,
}

/// What the turns for a fetch came to, as a value.
#[verifier::ext_equal]
pub struct DriveView {
    pub view: ContainerView,
    pub failed: Option<Errno>,
    pub waits: bool,
    pub work: Seq<ServiceItemEnd>,
}

/// How a fetch goes on after the first turn that was run for it.
#[derive(Clone, Copy, Debug, PartialEq, Eq, Structural)]
pub enum DriveStep {
    /// The planner failed the request.
    Failed(Errno),
    /// Run the page service once more.
    Again { waits: bool },
    /// Nothing is left to be run.
    Driven { waits: bool },
}

/// How a fetch with request `id` goes on after a first turn that did `work`.
pub open spec fn drive_step(
    work: Seq<ServiceItemEnd>,
    runnable: bool,
    id: Option<PageIoRequestId>,
) -> DriveStep {
    match terminal_error(work, id) {
        Some(errno) => DriveStep::Failed(errno),
        None => if runnable {
            DriveStep::Again { waits: waits_for_completion(work) }
        } else {
            DriveStep::Driven { waits: waits_for_completion(work) }
        },
    }
}

/// Decide how a fetch goes on after its first turn.
pub fn after_first_turn(driven: &PageServiceBackendDriven, request_id: Option<PageIoRequestId>) -> (step:
    DriveStep)
    ensures
        step == drive_step(driven.work@, driven.next is Runnable, request_id),
{
    match file_service_terminal_error_for_request(&driven.work, request_id) {
        Some(errno) => {
            return DriveStep::Failed(errno);
        },
        None => {},
    }
    let waits = file_service_work_waits_for_async_completion(&driven.work);
    match driven.next {
        PageServiceNext::Runnable => DriveStep::Again { waits },
        PageServiceNext::Sleeping => DriveStep::Driven { waits },
    }
}

/// Whether a fetch has to wait after its second turn, where the first one asked
/// for it if `waits`; or the error that the planner gave its request.
pub fn after_second_turn(
    driven: &PageServiceBackendDriven,
    request_id: Option<PageIoRequestId>,
    waits: bool,
) -> (r: Result<bool, Errno>)
    ensures
        r == match terminal_error(driven.work@, request_id) {
            Some(errno) => Err::<bool, Errno>(errno),
            None => Ok(waits || waits_for_completion(driven.work@)),
        },
{
    match file_service_terminal_error_for_request(&driven.work, request_id) {
        Some(errno) => Err(errno),
        None => {
            let more = file_service_work_waits_for_async_completion(&driven.work);
            Ok(waits || more)
        },
    }
}

impl ContainerView {
    /// The request of the fetch of `page` that is under way.
    pub open spec fn fetch_request(self, page: PageIndex) -> Option<PageIoRequestId> {
        if self.fetches.contains_key(page.0) {
            self.fetches[page.0].request_id
        } else {
            None
        }
    }

    /// After a turn of the page service.
    pub open spec fn turned(self, turn: ServiceTurn) -> Self {
        self.served(turn.items@, FileBlockSubmissionTarget::Owned, turn.items@.len())
    }

    /// What the items of a turn came to.
    pub open spec fn turn_ends(self, turn: ServiceTurn) -> Seq<ServiceItemEnd> {
        self.served_ends(turn.items@, FileBlockSubmissionTarget::Owned)
    }

    /// Outcome of running the page service for the fetch with request `id`: it
    /// is run again only if it has more to do and the request did not fail.
    pub open spec fn drive_fetch(
        self,
        id: Option<PageIoRequestId>,
        first: ServiceTurn,
        second: ServiceTurn,
    ) -> DriveView {
        let once = self.turned(first);
        let work = self.turn_ends(first);
        match drive_step(work, first.runnable, id) {
            DriveStep::Failed(errno) => DriveView {
                view: once,
                failed: Some(errno),
                waits: false,
                work,
            },
            DriveStep::Driven { waits } => DriveView { view: once, failed: None, waits, work },
            DriveStep::Again { waits } => {
                let more = once.turn_ends(second);
                let failed = terminal_error(more, id);
                DriveView {
                    view: once.turned(second),
                    failed,
                    waits: failed is None && (waits || waits_for_completion(more)),
                    work: work + more,
                }
            },
        }
    }

    /// Outcome of serving the fetch of `page` by a plan.
    pub open spec fn access_planned(
        self,
        page: PageIndex,
        access: MaterializeAccess,
        fetch: FilePageFetchId,
        replies: DriveReplies,
    ) -> (Self, AccessTurn) {
        let driven = self.drive_fetch(self.fetch_request(page), replies.first, replies.second);
        driven.view.access_driven(
            page,
            access,
            fetch,
            driven.failed,
            driven.waits,
            replies.pins,
            replies.fresh,
        )
    }

    /// What the turns that serve the fetch of `page` came to.
    pub open spec fn planned_work(self, page: PageIndex, replies: DriveReplies) -> Seq<
        ServiceItemEnd,
    > {
        self.drive_fetch(self.fetch_request(page), replies.first, replies.second).work
    }
}

impl PageContainer {
    /// Run the page service for the fetch of `page`.
    fn drive_file_page_fetch(&mut self, page: PageIndex, first: ServiceTurn, second: ServiceTurn) -> (driven:
        FetchDrive)
        requires
            old(self).wf(),
            old(self)@.kind is File,
            old(self)@.block.next_id + items_bios(first.items@) + items_bios(second.items@)
                <= u64::MAX,
        ensures
            final(self).wf(),
            final(self)@.kind == old(self)@.kind,
            ({
                let expected = old(self)@.drive_fetch(
                    old(self)@.fetch_request(page),
                    first,
                    second,
                );
                &&& final(self)@ == expected.view
                &&& driven.failed == expected.failed
                &&& driven.waits == expected.waits
                &&& driven.work@ == expected.work
            }),
    {
        let ghost before = self@;
        let request_id: Option<PageIoRequestId> = match self.in_flight_file_pages.get(page.0) {
            Some(fetch) => fetch.request_id,
            None => None,
        };
        proof {
            lemma_served_bound(
                before,
                first.items@,
                FileBlockSubmissionTarget::Owned,
                first.items@.len(),
            );
            lemma_served_bound(
                before.turned(first),
                second.items@,
                FileBlockSubmissionTarget::Owned,
                second.items@.len(),
            );
        }
        let once = match self.drive_file_io_service_once_owned(
            first.items,
            first.runnable,
            first.accepted,
        ) {
            Some(driven) => driven,
            None => {
                return FetchDrive { failed: None, waits: false, work: Vec::new() };
            },
        };
        let waits = match after_first_turn(&once, request_id) {
            DriveStep::Failed(errno) => {
                return FetchDrive { failed: Some(errno), waits: false, work: once.work };
            },
            DriveStep::Driven { waits } => {
                return FetchDrive { failed: None, waits, work: once.work };
            },
            DriveStep::Again { waits } => waits,
        };
        let mut work = once.work;
        match self.drive_file_io_service_once_owned(
            second.items,
            second.runnable,
            second.accepted,
        ) {
            Some(again) => {
                let ended = after_second_turn(&again, request_id, waits);
                let mut more = again.work;
                work.append(&mut more);
                match ended {
                    Err(errno) => FetchDrive { failed: Some(errno), waits: false, work },
                    Ok(waits) => FetchDrive { failed: None, waits, work },
                }
            },
            None => FetchDrive { failed: None, waits, work },
        }
    }

    /// Serve the fetch of `page` by a plan: run the page service for it, and go
    /// on with what came of that.
    pub fn try_materialize_file_page_from_backend_plan(
        &mut self,
        page: PageIndex,
        access: MaterializeAccess,
        fetch: FilePageFetchId,
        replies: DriveReplies,
    ) -> (r: (AccessTurn, Vec<ServiceItemEnd>))
        requires
            old(self).wf(),
            old(self)@.kind is File,
            old(self)@.block.next_id + replies.bios() <= u64::MAX,
        ensures
            final(self).wf(),
            (final(self)@, r.0) == old(self)@.access_planned(page, access, fetch, replies),
            r.1@ == old(self)@.planned_work(page, replies),
    {
        let driven = self.drive_file_page_fetch(page, replies.first, replies.second);
        let turn = self.resume_driven_fetch(
            page,
            access,
            fetch,
            driven.failed,
            driven.waits,
            replies.pins,
            replies.fresh,
        );
        (turn, driven.work)
    }
}

} // verus!
