use page_backed::block_runtime::{
    BackendSubmitOutcome, BioPlan, BlockDeviceCompletion, BlockOp, BlockPageCompletion,
    BlockRequestId, BlockServiceNext, BlockSubmissionHandle, BlockTag, LbaRange, PageL6Action,
    QueueError, SubmitOutcome, UnknownTag,
};
use page_backed::completion::{CompletionAnswers, PlannerNotice};
use page_backed::container::{
    AnonSwapPolicy, MaterializeAccess, MountPin, PageContainer, PageContainerKind,
};
use page_backed::fetch::FilePageFetchStart;
use page_backed::frame::{CachePin, CachedFrame};
use page_backed::ids::{
    Errno, FsObjectId, PageGeneration, PageIndex, PageIoRequestId, Ppn, USER_PAGE_SIZE,
};
use page_backed::io::{
    BioVec, IoDataSource, PageCompletionRoute, PageIoCompletion, PageIoCompletionKind,
    PageIoFlags, PageIoOp, PageIoPriority, PageIoRange, PageIoRequest, PageIoResult,
};
use page_backed::materialize::PinGrants;
use page_backed::page_access::{AccessAnswers, AccessStep};
use page_backed::service::{
    backend_submit_errno, file_service_terminal_error_for_request,
    file_service_work_waits_for_async_completion, finish_file_block_io_turn, BackendReply,
    BackendSubmission, BackendSubmitError, BlockTurnError, DeviceEvent, FileBlockServiceTurn,
    PageServiceNext, PreparedRoutes, RoutedAction, RoutedWork, ServiceDrivenWork, ServiceItem,
};
use page_backed::slot::{PageSlot, PageSlotFetch, PageSlotSnapshot, PageSlotState};
use page_backed::step::{StepOutcome, YieldShape};

const ZERO_FRAME: Ppn = Ppn(0x5);

fn file(object: u64, pages: u64, planner: bool) -> PageContainer {
    PageContainer::new(
        PageContainerKind::File {
            mount: MountPin { trace_id: 3, backend_planner: planner },
            fs_object_id: FsObjectId::new(object),
        },
        pages,
    )
}

fn granted() -> CompletionAnswers {
    CompletionAnswers { pinned: Ok(()), retire: true }
}

fn pins() -> PinGrants {
    PinGrants { cache: Ok(()), map: Ok(()) }
}

fn access_answers(ppn: usize, fresh: u64) -> AccessAnswers {
    AccessAnswers {
        pins: pins(),
        retire: true,
        allocated: Ok(CachedFrame::from_pin(CachePin { ppn: Ppn(ppn) })),
        fresh,
    }
}

fn seed_dirty(pc: &mut PageContainer, page: PageIndex, ppn: usize) -> PageGeneration {
    let frame = CachedFrame::from_pin(CachePin { ppn: Ppn(ppn) });
    pc.install_resident_if_absent_published_with(page, frame, true, true).expect("seed page");
    pc.page_slot_snapshot(page).expect("dirty slot").generation
}

fn stage_read(pc: &mut PageContainer, page: u64, generation: u64) -> PageIoRequest {
    let id = pc
        .page_submission
        .submit(
            PageIoRange::new(page, 1),
            PageIoOp::Read,
            PageIoPriority::Demand,
            PageIoFlags::Demand,
            Some(PageGeneration::new(generation)),
        )
        .expect("staged file service submission");
    let request = pc
        .page_submission
        .find_submission(PageIoRange::new(page, 1), PageIoOp::Read)
        .expect("staged request");
    assert_eq!(request.id, id);
    request
}

fn completion_of(request: PageIoRequest, result: PageIoResult, kind: PageIoCompletionKind) -> PageIoCompletion {
    PageIoCompletion::new(
        request.id,
        request.range,
        result,
        request.generation_hint.unwrap_or(PageGeneration::new(0)),
        kind,
    )
}

fn route(completion: PageIoCompletion, frame: Option<Ppn>) -> ServiceItem {
    ServiceItem::Completion {
        route: PageCompletionRoute { completion, frame, has_waiters: false },
        answers: granted(),
    }
}

fn planned(request: PageIoRequest, submission: BackendSubmission) -> ServiceItem {
    ServiceItem::Submission {
        request,
        reply: BackendReply::Planned { graph: false, submission },
        answers: granted(),
    }
}

fn bio(op: BlockOp, start: u64, frame: u64, len: u32) -> BioPlan {
    BioPlan {
        device: 8,
        op,
        range: LbaRange { start, count: 1 },
        vecs: vec![BioVec::new(frame, 0, len)],
    }
}

fn bio_only() -> BioPlan {
    bio(BlockOp::Read, 64, 0xfeed, USER_PAGE_SIZE as u32)
}

/// Queue `bios` for `request` in the container's block service, as the page
/// service does: the receipt is accepted if it tells of no failure.
fn submit_bios(
    pc: &mut PageContainer,
    request: PageIoRequest,
    bios: Vec<BioPlan>,
) -> Result<BackendSubmitOutcome, BackendSubmitError> {
    let receipt = pc.submit_page_action(PageL6Action { id: request.id, bios, merges: vec![] });
    match receipt.failure {
        Some(failure) => Err(BackendSubmitError::BlockQueue(failure.error)),
        None => {
            let outcome =
                BackendSubmitOutcome::BlockBiosQueued { request, submitted: receipt.submitted };
            pc.record_page_outcome(&outcome);
            Ok(outcome)
        }
    }
}

fn fill_block_queue(pc: &mut PageContainer) {
    let bios: Vec<BioPlan> = (0..1024u64)
        .map(|lba| BioPlan {
            device: 99,
            op: BlockOp::Read,
            range: LbaRange { start: 10_000 + lba * 2, count: 1 },
            vecs: vec![BioVec::new(0x300 + lba, 0, 512)],
        })
        .collect();
    let receipt = pc.submit_page_action(PageL6Action { id: PageIoRequestId::new(9999), bios, merges: vec![] });
    assert_eq!(receipt.failure, None, "fill owned L6 queue");
    assert_eq!(receipt.submitted.len(), 1024);
}

fn ok(tag: BlockTag) -> BlockDeviceCompletion {
    BlockDeviceCompletion { tag, result: Ok(()) }
}

fn no_routes() -> Option<PreparedRoutes> {
    Some(PreparedRoutes { queued: 0, wake: false, actions: vec![] })
}

#[test]
fn a_file_names_its_object_and_whether_it_has_a_planner() {
    let context = file(77, 4, true).file_backend_context().expect("backend context");
    assert_eq!(context.object.as_u64(), 77);
    assert!(context.planner);
    assert!(!file(77, 4, false).file_backend_context().expect("backend context").planner);
}

#[test]
fn file_page_container_builds_mount_payload_backend_context() {
    let mut pc = file(77, 4, true);
    let context = pc.file_backend_context().expect("file page container backend context");
    assert_eq!(context.object.as_u64(), 77);
    assert!(context.planner);

    let request = PageIoRequest {
        id: PageIoRequestId::new(9),
        range: PageIoRange::new(2, 1),
        op: PageIoOp::Read,
        priority: PageIoPriority::Demand,
        flags: PageIoFlags::Demand,
        generation_hint: Some(PageGeneration::new(5)),
    };
    let completion = completion_of(request, PageIoResult::Done, PageIoCompletionKind::ReadInstalled);
    let plan = BackendSubmission::Settled(Ok(BackendSubmitOutcome::QueuedPageCompletions {
        queued: 1,
        wake: true,
    }));
    let driven = pc
        .drive_file_io_service_once_owned(
            vec![planned(request, plan), route(completion, None)],
            false,
            false,
        )
        .expect("mount-hosted backend planner");
    let completions: Vec<&PageIoCompletion> = driven
        .work
        .iter()
        .filter_map(|end| match &end.work {
            ServiceDrivenWork::Completion(route) => Some(&route.completion),
            _ => None,
        })
        .collect();
    assert_eq!(completions.len(), 1);
    assert_eq!(completions[0].id, PageIoRequestId::new(9));
    assert_eq!(completions[0].range, PageIoRange::new(2, 1));
    assert_eq!(completions[0].generation, PageGeneration::new(5));
}

#[test]
fn identities_have_to_last_for_the_transfers_of_a_turn() {
    let mut pc = file(80, 4, true);
    let request = stage_read(&mut pc, 1, 2);
    let submission = || BackendSubmission::Submit {
        action: PageL6Action {
            id: request.id,
            bios: vec![bio_only(), bio_only()],
            merges: vec![],
        },
        applied: Err(BackendSubmitError::Graph),
    };
    let items = vec![planned(request, submission()), planned(request, submission())];
    assert!(pc.can_number_items(&items) && pc.can_number_submission(&submission()));
    pc.block_submission.next_id = u64::MAX - 3;
    assert!(!pc.can_number_items(&items) && pc.can_number_submission(&submission()));
    pc.block_submission.next_id = u64::MAX - 1;
    assert!(!pc.can_number_submission(&submission()));
    assert!(pc.can_number_items(&vec![]));
}

#[test]
fn the_receipt_of_a_plan_tells_what_was_queued() {
    let mut pc = file(79, 4, true);
    let request = stage_read(&mut pc, 1, 2);
    let refused = pc.submit_owned_file_backend_outcome(BackendSubmission::Settled(Err(
        BackendSubmitError::Graph,
    )));
    assert_eq!(refused.0.err(), Some(BackendSubmitError::Graph));
    assert!(refused.1.is_none());
    let empty = BioPlan { range: LbaRange { start: 0, count: 0 }, ..bio_only() };
    let (outcome, receipt) = pc.submit_owned_file_backend_outcome(BackendSubmission::Submit {
        action: PageL6Action { id: request.id, bios: vec![bio_only(), empty], merges: vec![] },
        applied: Err(BackendSubmitError::BlockQueue(QueueError::EmptyRange)),
    });
    assert_eq!(
        outcome.err(),
        Some(BackendSubmitError::BlockQueue(QueueError::EmptyRange))
    );
    let receipt = receipt.expect("transfers were handed on");
    assert_eq!(receipt.id, request.id);
    assert_eq!(receipt.submitted.len(), 1);
    let failure = receipt.failure.expect("the second transfer is empty");
    assert_eq!(failure.failed_index, 1);
    assert_eq!(failure.error, QueueError::EmptyRange);
}

#[test]
fn non_file_page_container_has_no_backend_context() {
    let mut pc = PageContainer::new(
        PageContainerKind::Anon { swap_policy: AnonSwapPolicy::Reclaimable },
        4,
    );

    assert!(pc.file_backend_context().is_none());
    assert!(pc.drive_file_io_service_once(vec![], true, true).is_none());
    assert!(pc.drive_file_io_service_once_owned(vec![], true, true).is_none());
}

#[test]
fn file_page_container_drives_service_submission_through_mount_planner_without_state_lock() {
    let mut pc = file(88, 4, true);
    let request = stage_read(&mut pc, 1, 7);
    let queued = BackendSubmitOutcome::QueuedPageCompletions { queued: 1, wake: true };
    let driven = pc
        .drive_file_io_service_once(
            vec![planned(request, BackendSubmission::Settled(Ok(queued)))],
            true,
            true,
        )
        .expect("file service drive");

    assert_eq!(pc.block_submission.queue_len(), 0);
    assert_eq!(driven.work.len(), 1);
    assert!(matches!(
        driven.work[0].work,
        ServiceDrivenWork::BackendSubmission(BackendSubmitOutcome::QueuedPageCompletions {
            queued: 1,
            wake: true,
        })
    ));
    assert_eq!(driven.next, PageServiceNext::Runnable);
    assert_eq!(driven.kicks, 1);
}

#[test]
fn file_page_container_drives_service_submission_under_existing_epoch_guard() {
    let mut pc = file(89, 4, true);
    let request = stage_read(&mut pc, 1, 7);
    let queued = BackendSubmitOutcome::QueuedPageCompletions { queued: 1, wake: true };
    let driven = pc
        .drive_file_io_service_once(
            vec![planned(request, BackendSubmission::Settled(Ok(queued)))],
            true,
            false,
        )
        .expect("file service drive under existing guard");

    assert_eq!(driven.work.len(), 1);
    assert!(matches!(
        driven.work[0].work,
        ServiceDrivenWork::BackendSubmission(BackendSubmitOutcome::QueuedPageCompletions {
            queued: 1,
            wake: true,
        })
    ));
    assert_eq!(driven.kicks, 0);
}

/// A slot of `page` that is being fetched by nobody.
fn fetching_slot(pc: &mut PageContainer, page: PageIndex) -> PageGeneration {
    let mut slot = PageSlot::new();
    let PageSlotFetch::Owner { generation } = slot.begin_fetch() else {
        panic!("test slot should own fetch");
    };
    pc.page_slots.insert(page.as_u64(), slot);
    generation
}

fn unowned(id: u64, page: PageIndex, result: PageIoResult, generation: PageGeneration) -> PageIoCompletion {
    PageIoCompletion::new(
        PageIoRequestId::new(id),
        PageIoRange::new(page.as_u64(), 1),
        result,
        generation,
        PageIoCompletionKind::ReadInstalled,
    )
}

#[test]
fn file_page_service_completion_without_owner_leaves_pageslot_fetching() {
    let mut pc = file(89, 4, false);
    let page = PageIndex::new(2);
    let generation = fetching_slot(&mut pc, page);
    let completion = unowned(11, page, PageIoResult::Failed(Errno::EIO), generation);

    let driven = pc
        .drive_file_io_service_once(vec![route(completion, None)], false, false)
        .expect("file service drive");

    assert_eq!(driven.work.len(), 1);
    assert!(matches!(driven.work[0].work, ServiceDrivenWork::Completion(_)));
    assert_eq!(driven.next, PageServiceNext::Sleeping);
    assert_eq!(
        pc.page_slot_snapshot(page),
        Some(PageSlotSnapshot { state: PageSlotState::Fetching, generation })
    );
}

#[test]
fn file_page_service_completion_rejects_stale_pageslot_generation() {
    let mut pc = file(90, 4, false);
    let page = PageIndex::new(2);
    let stale_generation = fetching_slot(&mut pc, page);
    pc.page_slots.get_mut(page.as_u64()).invalidate();
    let completion = unowned(12, page, PageIoResult::Failed(Errno::EIO), stale_generation);

    pc.drive_file_io_service_once(vec![route(completion, None)], false, false)
        .expect("file service drive");

    let snapshot = pc.page_slot_snapshot(page).expect("staged slot");
    assert_eq!(snapshot.state, PageSlotState::Empty);
    assert_ne!(snapshot.generation, stale_generation);
}

#[test]
fn file_page_service_completion_without_owner_does_not_install_read_frame() {
    let mut pc = file(91, 4, false);
    let page = PageIndex::new(1);
    let generation = fetching_slot(&mut pc, page);
    let completion = unowned(13, page, PageIoResult::Done, generation);

    pc.drive_file_io_service_once(vec![route(completion, Some(ZERO_FRAME))], false, false)
        .expect("file service drive");

    assert_eq!(pc.lookup(page), None);
    assert_eq!(
        pc.page_slot_snapshot(page),
        Some(PageSlotSnapshot { state: PageSlotState::Fetching, generation })
    );
}

fn writeback_of(pc: &PageContainer, page: PageIndex) -> PageIoRequest {
    pc.page_submission
        .find_submission(PageIoRange::new(page.as_u64(), 1), PageIoOp::Writeback)
        .expect("queued writeback request")
}

#[test]
fn file_page_writeback_leases_source_until_completion() {
    let mut pc = file(96, 4, true);
    let page = PageIndex::new(1);
    let ppn = Ppn(0x61);
    let generation = seed_dirty(&mut pc, page, 0x61);
    let id = pc.queue_file_page_writeback(page, Ok(())).expect("writeback request");
    let request = writeback_of(&pc, page);
    assert_eq!(request.id, id);
    let (source, _) = pc.prepare_owned_file_io_request(&request);
    let queued = BackendSubmitOutcome::QueuedPageCompletions { queued: 0, wake: false };
    pc.drive_file_io_service_once(
        vec![planned(request, BackendSubmission::Settled(Ok(queued)))],
        false,
        false,
    )
    .expect("planner turn");
    assert!(matches!(source, IoDataSource::PageCache { frame, .. } if frame == ppn));
    assert_eq!(pc.page_submission.admitted_file_writeback_count(), 1);
    let completion = PageIoCompletion::new(
        id,
        PageIoRange::new(page.as_u64(), 1),
        PageIoResult::Done,
        generation,
        PageIoCompletionKind::WritebackFinished,
    );
    pc.drive_file_io_service_once(vec![route(completion, None)], false, false)
        .expect("completion turn");
    assert_eq!(pc.page_submission.admitted_file_writeback_count(), 0);
    assert_eq!(
        pc.page_slot_snapshot(page).expect("slot").state,
        PageSlotState::Resident { ppn }
    );
    assert!(!pc.page_marks(page).expect("marks").dirty);
}

fn assert_writeback_given_up(pc: &PageContainer, page: PageIndex, ppn: Ppn) {
    assert_eq!(pc.page_submission.admitted_file_request_count(), 0);
    assert_eq!(pc.page_submission.admitted_file_writeback_count(), 0);
    assert_eq!(pc.page_submission.submission_len(), 0);
    assert_eq!(
        pc.page_slot_snapshot(page).expect("writeback slot").state,
        PageSlotState::Dirty { ppn }
    );
    assert!(!pc.page_marks(page).expect("page marks").writeback);
}

/// Queue a writeback of page 0 whose plan needs metadata first, and let the
/// metadata arrive.
fn metadata_first(pc: &mut PageContainer) -> PageIoRequest {
    let page = PageIndex::new(0);
    pc.queue_file_page_writeback(page, Ok(())).expect("queue writeback request");
    let request = writeback_of(pc, page);
    let metadata = PageL6Action {
        id: request.id,
        bios: vec![bio(BlockOp::Read, 64, 0x100, 512)],
        merges: vec![],
    };
    let submission = BackendSubmission::Submit {
        action: metadata,
        applied: Ok(BackendSubmitOutcome::MetadataFirstQueued {
            submitted: vec![SubmitOutcome::Queued(BlockRequestId(1))],
        }),
    };
    pc.drive_file_io_service_once_owned(vec![planned(request, submission)], false, false)
        .expect("initial metadata submission");
    assert_eq!(pc.page_submission.admitted_file_request_count(), 1);
    assert_eq!(pc.page_submission.admitted_file_writeback_count(), 1);

    let turn = pc
        .drive_file_block_io_service_once(
            1,
            &vec![],
            0,
            vec![DeviceEvent {
                completion: ok(BlockTag(1)),
                routes: Some(PreparedRoutes { queued: 0, wake: true, actions: vec![] }),
                retires: vec![],
            }],
            &vec![true],
        )
        .expect("metadata completion queues resume");
    assert_eq!(turn.dispatched, 1);
    assert_eq!(turn.kicks, 1);
    request
}

#[test]
fn backend_resume_queue_error_terminalizes_once() {
    let mut pc = file(108, 4, true);
    let page = PageIndex::new(0);
    seed_dirty(&mut pc, page, 0x62);
    let request = metadata_first(&mut pc);
    fill_block_queue(&mut pc);
    let refused = submit_bios(&mut pc, request, vec![bio(BlockOp::Write, 128, 0x200, 512)]);
    assert!(matches!(refused, Err(BackendSubmitError::BlockQueue(QueueError::Full))));
    let driven = pc
        .drive_file_io_service_once_owned(
            vec![planned(request, BackendSubmission::Settled(refused))],
            false,
            false,
        )
        .expect("resume queue error is terminalized");

    assert!(matches!(
        driven.work[0].work,
        ServiceDrivenWork::BackendSubmitError(BackendSubmitError::BlockQueue(QueueError::Full))
    ));
    assert_writeback_given_up(&pc, page, Ppn(0x62));
}

#[test]
fn initial_queue_error_terminalizes_writeback_owner() {
    let mut pc = file(113, 4, true);
    let page = PageIndex::new(0);
    seed_dirty(&mut pc, page, 0x63);
    fill_block_queue(&mut pc);
    pc.queue_file_page_writeback(page, Ok(())).expect("queue writeback request");
    let request = writeback_of(&pc, page);
    let submission = BackendSubmission::Submit {
        action: PageL6Action {
            id: request.id,
            bios: vec![bio(BlockOp::Write, 128, 0x200, 512)],
            merges: vec![],
        },
        applied: Err(BackendSubmitError::BlockQueue(QueueError::Full)),
    };

    pc.drive_file_io_service_once_owned(vec![planned(request, submission)], false, false)
        .expect("initial queue error is terminalized");

    assert_eq!(pc.block_submission.queue_len(), 1024);
    assert_writeback_given_up(&pc, page, Ppn(0x63));
}

#[test]
fn initial_planner_device_error_terminalizes_writeback_owner() {
    let mut pc = file(110, 4, true);
    let page = PageIndex::new(0);
    seed_dirty(&mut pc, page, 0x64);
    pc.queue_file_page_writeback(page, Ok(())).expect("queue writeback request");
    let request = writeback_of(&pc, page);
    let failed = BackendSubmitOutcome::Error { request, errno: Errno::EIO };

    let driven = pc
        .drive_file_io_service_once_owned(
            vec![planned(request, BackendSubmission::Settled(Ok(failed)))],
            false,
            false,
        )
        .expect("device-error planning turn");

    assert_eq!(
        file_service_terminal_error_for_request(&driven.work, Some(request.id)),
        Some(Errno::EIO)
    );
    assert_writeback_given_up(&pc, page, Ppn(0x64));
}

#[test]
fn initial_planning_none_terminalizes_writeback_owner() {
    let mut pc = file(111, 4, false);
    let page = PageIndex::new(0);
    seed_dirty(&mut pc, page, 0x65);
    pc.queue_file_page_writeback(page, Ok(())).expect("queue writeback request");
    let request = writeback_of(&pc, page);

    let driven = pc
        .drive_file_io_service_once_owned(
            vec![ServiceItem::Submission {
                request,
                reply: BackendReply::Unplanned,
                answers: granted(),
            }],
            false,
            false,
        )
        .expect("unplanned submission turn");

    assert!(matches!(driven.work[0].work, ServiceDrivenWork::UnplannedSubmission(_)));
    assert_writeback_given_up(&pc, page, Ppn(0x65));
}

#[test]
fn resume_planning_error_terminalizes_writeback_owner() {
    let mut pc = file(112, 4, true);
    let page = PageIndex::new(0);
    seed_dirty(&mut pc, page, 0x66);
    let request = metadata_first(&mut pc);
    let failed = BackendSubmitOutcome::Error { request, errno: Errno::ENOSYS };
    pc.drive_file_io_service_once_owned(
        vec![planned(request, BackendSubmission::Settled(Ok(failed)))],
        false,
        false,
    )
    .expect("resume planning error is terminalized");

    assert_writeback_given_up(&pc, page, Ppn(0x66));
}

#[test]
fn a_planner_sees_the_frame_that_a_writeback_retains() {
    let mut pc = file(196, 4, true);
    let page = PageIndex::new(1);
    seed_dirty(&mut pc, page, 0x67);
    pc.queue_file_page_writeback(page, Ok(())).expect("writeback request");
    let request = writeback_of(&pc, page);
    let (source, target) = pc.prepare_owned_file_io_request(&request);
    assert_eq!(source.lease().expect("lease").raw(), request.id.raw());
    assert!(matches!(source, IoDataSource::PageCache { frame: Ppn(0x67), .. }));
    assert_eq!(target.lease(), None);
}

/// Start a demand read of page 1 and let `submission` plan it.
fn drive_read(
    pc: &mut PageContainer,
    graph: bool,
    submission: fn(PageIoRequest) -> BackendSubmission,
) -> PageIoRequest {
    let page = PageIndex::new(1);
    let fetch = match pc
        .materialize_page(page, MaterializeAccess::Read, access_answers(0x71, 700))
        .step
    {
        AccessStep::Drive { fetch } => fetch,
        other => panic!("expected the planner to be driven, got {other:?}"),
    };
    let request = pc
        .page_submission
        .find_submission(PageIoRange::new(1, 1), PageIoOp::Read)
        .expect("queued read");
    let item = ServiceItem::Submission {
        request,
        reply: BackendReply::Planned { graph, submission: submission(request) },
        answers: granted(),
    };
    let driven = pc
        .drive_file_io_service_once_owned(vec![item], false, false)
        .expect("owned file service drive");
    let failed = file_service_terminal_error_for_request(&driven.work, Some(request.id));
    let waits = file_service_work_waits_for_async_completion(&driven.work);
    let turn = pc.resume_driven_fetch(
        page,
        MaterializeAccess::Read,
        fetch,
        failed,
        waits,
        pins(),
        701,
    );
    match turn.step {
        AccessStep::Finished(StepOutcome::Yield {
            shape: YieldShape::OnWaitSource { interests, .. },
            ..
        }) => assert_eq!(interests, 0x1),
        other => panic!("expected async yield after the plan, got {other:?}"),
    }
    request
}

fn read_again(pc: &mut PageContainer) -> Ppn {
    match pc
        .materialize_page(PageIndex::new(1), MaterializeAccess::Read, access_answers(0x72, 702))
        .step
    {
        AccessStep::Finished(StepOutcome::Done(page)) => page.ppn,
        other => panic!("expected retry to observe installed async page, got {other:?}"),
    }
}

/// One block service turn of budget `budget` whose device completes at once.
/// The page completions of every completion are handed on.
fn block_turn(
    pc: &mut PageContainer,
    budget: usize,
) -> (FileBlockServiceTurn, Vec<BlockPageCompletion>) {
    let (mut turn, dispatches) =
        pc.begin_file_block_io_turn(budget, &vec![], 0).expect("begin block turn");
    let mut pages = Vec::new();
    for dispatch in dispatches {
        let receipt = pc.take_device_completion(ok(dispatch.tag)).expect("known tag");
        let routed = RoutedWork::of(receipt.page.len(), !receipt.page.is_empty());
        pages.extend(receipt.page.iter().copied());
        turn = pc
            .end_device_completion(turn, &receipt.direct, routed, &vec![])
            .expect("end of completion");
    }
    (finish_file_block_io_turn(&turn, &vec![true; 8]), pages)
}

#[test]
fn file_page_materialize_bio_only_plan_yields_without_compat_fetch() {
    let mut pc = file(93, 4, true);
    let request = drive_read(&mut pc, false, |request| BackendSubmission::Submit {
        action: PageL6Action { id: request.id, bios: vec![bio_only()], merges: vec![] },
        applied: Ok(BackendSubmitOutcome::BlockBiosQueued {
            request,
            submitted: vec![SubmitOutcome::Queued(BlockRequestId(1))],
        }),
    });

    assert_eq!(pc.block_submission.queue_len(), 1);
    assert_eq!(pc.block_submission.tracker_len(), 1);
    assert!(pc.in_flight_file_pages.contains_key(1));

    let (_, pages) = block_turn(&mut pc, 1);
    assert_eq!(pages.len(), 1);
    assert_eq!(pages[0].request.id, request.id);
    let completion =
        completion_of(request, PageIoResult::Done, PageIoCompletionKind::ReadInstalled);
    pc.drive_file_io_service_once_owned(vec![route(completion, Some(ZERO_FRAME))], false, false)
        .expect("completion apply drive");

    assert!(!pc.in_flight_file_pages.contains_key(1));
    assert_eq!(read_again(&mut pc), ZERO_FRAME);
}

#[test]
fn file_page_dependency_graph_releases_successor_through_owned_l6_runtime() {
    let mut pc = file(101, 4, true);
    let request = drive_read(&mut pc, true, |request| BackendSubmission::Submit {
        action: PageL6Action {
            id: request.id,
            bios: vec![
                bio(BlockOp::Read, 64, 0x100, 512),
                bio(BlockOp::Read, 72, 0x200, 512),
            ],
            merges: vec![],
        },
        applied: Ok(BackendSubmitOutcome::BlockGraphQueued {
            submitted: vec![
                SubmitOutcome::Queued(BlockRequestId(1)),
                SubmitOutcome::Queued(BlockRequestId(2)),
            ],
        }),
    });
    assert_eq!(pc.block_submission.queue_len(), 2);
    assert_eq!(pc.block_submission.tracker_len(), 0);

    let successor = RoutedAction {
        action: PageL6Action {
            id: request.id,
            bios: vec![bio(BlockOp::Read, 80, 0x300, 512)],
            merges: vec![],
        },
        applied: Some(BackendSubmitOutcome::BlockGraphQueued {
            submitted: vec![SubmitOutcome::Queued(BlockRequestId(3))],
        }),
    };
    let roots = pc
        .drive_file_block_io_service_once(
            2,
            &vec![],
            0,
            vec![
                DeviceEvent { completion: ok(BlockTag(1)), routes: no_routes(), retires: vec![] },
                DeviceEvent {
                    completion: ok(BlockTag(2)),
                    routes: Some(PreparedRoutes {
                        queued: 0,
                        wake: false,
                        actions: vec![successor],
                    }),
                    retires: vec![],
                },
            ],
            &vec![true],
        )
        .expect("root graph block service turn");

    assert_eq!(roots.dispatched, 2);
    assert_eq!(roots.device_completions, 2);
    assert_eq!(roots.page_completions, 0);
    assert_eq!(roots.next, BlockServiceNext::Runnable);
    assert_eq!(roots.kicks, 1);
    assert_eq!(pc.block_submission.queue_len(), 1);

    let successor = pc
        .drive_file_block_io_service_once(
            1,
            &vec![],
            0,
            vec![DeviceEvent {
                completion: ok(BlockTag(3)),
                routes: Some(PreparedRoutes { queued: 1, wake: true, actions: vec![] }),
                retires: vec![],
            }],
            &vec![true],
        )
        .expect("successor graph block service turn");

    assert_eq!(successor.dispatched, 1);
    assert_eq!(successor.device_completions, 1);
    assert_eq!(successor.page_completions, 1);
    assert_eq!(successor.kicks, 1);
    assert_eq!(pc.block_submission.queue_len(), 0);
    let completion =
        completion_of(request, PageIoResult::Done, PageIoCompletionKind::ReadInstalled);
    pc.drive_file_io_service_once_owned(vec![route(completion, None)], false, false)
        .expect("graph terminal completion apply drive");

    assert!(!pc.in_flight_file_pages.contains_key(1));
    assert_eq!(read_again(&mut pc), Ppn(0x71));
}

#[test]
fn file_page_service_records_l6_submit_outcomes_for_later_completion() {
    let mut pc = file(94, 4, true);
    let request = stage_read(&mut pc, 1, 19);
    let mut block = BlockSubmissionHandle::new(4, 16);
    let receipt =
        block.submit_page_action(PageL6Action { id: request.id, bios: vec![bio_only()], merges: vec![] });
    let queued =
        BackendSubmitOutcome::BlockBiosQueued { request, submitted: receipt.submitted };
    let driven = pc
        .drive_file_io_service_once_with_tracker(
            vec![planned(request, BackendSubmission::Settled(Ok(queued)))],
            &mut block,
            false,
            false,
        )
        .expect("file service drive");

    assert_eq!(block.queue_len(), 1);
    assert_eq!(block.tracker_len(), 1);
    assert_eq!(pc.block_submission.queue_len(), 0);
    assert_eq!(driven.work.len(), 1);
    assert!(matches!(
        driven.work[0].work,
        ServiceDrivenWork::BackendSubmission(BackendSubmitOutcome::BlockBiosQueued { .. })
    ));

    let dispatched = block.drive(1);
    assert_eq!(dispatched.dispatches[0].tag, BlockTag(1));
    assert_eq!(dispatched.dispatches[0].id, BlockRequestId(1));
    let completions = block.complete_receipt(ok(BlockTag(1))).expect("tracked block request").page;

    assert_eq!(completions.len(), 1);
    assert_eq!(completions[0].request.id, request.id);
    assert_eq!(completions[0].request.generation_hint, Some(PageGeneration::new(19)));
}

#[test]
fn file_page_owned_l6_runtime_routes_bio_completion_into_page_slot() {
    let mut pc = file(95, 4, true);
    let page = PageIndex::new(1);
    let target = CachedFrame::from_pin(CachePin { ppn: Ppn(0x73) });
    let FilePageFetchStart::Owner(_) =
        pc.begin_file_page_fetch(page, MaterializeAccess::Read, Some(target), pins(), 31)
    else {
        panic!("test fetch should own a newly admitted request");
    };
    let request = pc
        .page_submission
        .find_submission(PageIoRange::new(1, 1), PageIoOp::Read)
        .expect("staged file service submission");
    let generation = pc.page_slot_snapshot(page).expect("fetch slot").generation;

    let submission = BackendSubmission::Submit {
        action: PageL6Action { id: request.id, bios: vec![bio_only()], merges: vec![] },
        applied: Ok(BackendSubmitOutcome::BlockBiosQueued {
            request,
            submitted: vec![SubmitOutcome::Queued(BlockRequestId(1))],
        }),
    };
    let page_driven = pc
        .drive_file_io_service_once_owned(vec![planned(request, submission)], false, false)
        .expect("owned file service drive");

    assert_eq!(pc.block_submission.queue_len(), 1);
    assert_eq!(pc.block_submission.tracker_len(), 1);
    assert!(matches!(
        page_driven.work[0].work,
        ServiceDrivenWork::BackendSubmission(BackendSubmitOutcome::BlockBiosQueued { .. })
    ));

    let (turn, pages) = block_turn(&mut pc, 1);
    assert_eq!(pages.len(), 1);
    assert_eq!(pages[0].request.id, request.id);
    assert_eq!(turn.dispatched, 1);
    assert_eq!(turn.device_completions, 1);
    assert_eq!(turn.page_completions, 1);
    assert_eq!(turn.next, BlockServiceNext::Sleeping);
    assert_eq!(
        turn.kicks, 1,
        "a tagged L6 completion must wake the sleeping L4 page service"
    );
    assert_eq!(pc.block_submission.tracker_len(), 0);

    let completion =
        completion_of(request, PageIoResult::Done, PageIoCompletionKind::ReadInstalled);
    pc.drive_file_io_service_once_owned(vec![route(completion, Some(ZERO_FRAME))], false, false)
        .expect("completion apply drive");

    assert_eq!(pc.lookup(page), Some(ZERO_FRAME));
    assert_eq!(
        pc.page_slot_snapshot(page),
        Some(PageSlotSnapshot {
            state: PageSlotState::Resident { ppn: ZERO_FRAME },
            generation,
        })
    );
}

#[test]
fn file_checkpoint_completion_notifies_background_graph_owner_only() {
    let mut pc = file(102, 2, true);
    let request = pc
        .page_submission
        .reserve_background_request(PageIoRange::new(0, 2))
        .expect("reserve checkpoint request");
    pc.page_submission.mark_background_graph(request.id);
    let route = PageCompletionRoute {
        completion: PageIoCompletion::new(
            request.id,
            request.range,
            PageIoResult::Done,
            PageGeneration::new(0),
            PageIoCompletionKind::Noop,
        ),
        frame: None,
        has_waiters: false,
    };

    let end = pc.apply_file_io_completion_route(&route, granted());
    assert!(end.result.is_none());
    assert_eq!(
        end.planner,
        Some(PlannerNotice::BackgroundGraph { object: FsObjectId::new(102), result: Ok(()) })
    );
    assert_eq!(pc.apply_file_io_completion_route(&route, granted()).planner, None);
}

#[test]
fn file_background_admission_failure_notifies_planner_after_releasing_state_lock() {
    let mut pc = file(103, 2, true);
    for _ in 0..1024 {
        pc.page_submission
            .submit(
                PageIoRange::new(0, 1),
                PageIoOp::Read,
                PageIoPriority::Demand,
                PageIoFlags::Demand,
                None,
            )
            .expect("fill ordinary submission queue");
    }
    let graph = BackendSubmission::Submit {
        action: PageL6Action {
            id: PageIoRequestId::new(93),
            bios: vec![bio(BlockOp::Write, 96, 0x300, 512)],
            merges: vec![],
        },
        applied: Ok(BackendSubmitOutcome::BlockGraphQueued {
            submitted: vec![SubmitOutcome::Queued(BlockRequestId(1))],
        }),
    };

    assert_eq!(pc.queue_file_background_graph(graph), Some(Errno::EBUSY));
    assert_eq!(pc.block_submission.queue_len(), 0);
}

#[test]
fn a_background_graph_is_remembered_until_it_ends() {
    let mut pc = file(104, 2, true);
    let failed = pc.queue_file_background_graph(BackendSubmission::Submit {
        action: PageL6Action {
            id: PageIoRequestId::new(1),
            bios: vec![bio(BlockOp::Write, 96, 0x300, 512)],
            merges: vec![],
        },
        applied: Ok(BackendSubmitOutcome::BlockGraphQueued {
            submitted: vec![SubmitOutcome::Queued(BlockRequestId(1))],
        }),
    });
    assert_eq!(failed, None);
    assert_eq!(pc.block_submission.queue_len(), 1);
    assert!(pc.page_submission.take_background_graph(PageIoRequestId::new(1)));

    let refused = BackendSubmission::Settled(Err(BackendSubmitError::Graph));
    assert_eq!(pc.queue_file_background_graph(refused), Some(Errno::EIO));
    let request = stage_read(&mut pc, 0, 1);
    let failing = BackendSubmitOutcome::Error { request, errno: Errno::EROFS };
    assert_eq!(
        pc.queue_file_background_graph(BackendSubmission::Settled(Ok(failing))),
        Some(Errno::EROFS)
    );
}

#[test]
fn an_external_block_service_takes_no_graph() {
    let mut pc = file(105, 4, true);
    let page = PageIndex::new(0);
    seed_dirty(&mut pc, page, 0x68);
    pc.queue_file_page_writeback(page, Ok(())).expect("writeback");
    let request = writeback_of(&pc, page);
    let item = ServiceItem::Submission {
        request,
        reply: BackendReply::Planned {
            graph: true,
            submission: BackendSubmission::Settled(Ok(BackendSubmitOutcome::Yield)),
        },
        answers: granted(),
    };
    let driven = pc.drive_file_io_service_once(vec![item], false, false).expect("turn");
    assert_eq!(
        file_service_terminal_error_for_request(&driven.work, Some(request.id)),
        Some(Errno::ENOSYS)
    );
    assert!(!file_service_work_waits_for_async_completion(&driven.work));
    assert_writeback_given_up(&pc, page, Ppn(0x68));
}

#[test]
fn refused_plans_have_their_error_numbers() {
    let cases = [
        (BackendSubmitError::BlockQueue(QueueError::Full), Errno::EAGAIN),
        (BackendSubmitError::BlockQueue(QueueError::DispatchDepthFull), Errno::EAGAIN),
        (BackendSubmitError::BlockQueue(QueueError::EmptyRange), Errno::EINVAL),
        (BackendSubmitError::Graph, Errno::EIO),
        (BackendSubmitError::DuplicateGraph, Errno::EIO),
        (BackendSubmitError::UnknownAction, Errno::EIO),
    ];
    for (error, errno) in cases {
        assert_eq!(backend_submit_errno(error), errno);
    }
}

#[test]
fn a_block_turn_reports_what_went_wrong() {
    let mut pc = file(106, 4, true);
    let event = DeviceEvent { completion: ok(BlockTag(7)), routes: no_routes(), retires: vec![] };
    assert_eq!(
        pc.drive_file_block_io_service_once(1, &vec![], 0, vec![event], &vec![]),
        Err(BlockTurnError::UnknownTag(UnknownTag(BlockTag(7))))
    );

    let request = stage_read(&mut pc, 1, 1);
    submit_bios(&mut pc, request, vec![bio_only(), bio(BlockOp::Read, 70, 1, 512)])
        .expect("queued transfers");
    let event = DeviceEvent { completion: ok(BlockTag(1)), routes: None, retires: vec![] };
    assert_eq!(
        pc.drive_file_block_io_service_once(2, &vec![], 0, vec![event], &vec![]),
        Err(BlockTurnError::RefusedRoutes)
    );
    let refused = RoutedAction {
        action: PageL6Action { id: request.id, bios: vec![bio_only()], merges: vec![] },
        applied: None,
    };
    let event = DeviceEvent {
        completion: ok(BlockTag(2)),
        routes: Some(PreparedRoutes { queued: 0, wake: false, actions: vec![refused] }),
        retires: vec![],
    };
    assert_eq!(
        pc.drive_file_block_io_service_once(0, &vec![], 0, vec![event], &vec![]),
        Err(BlockTurnError::ExternalCompletion)
    );
    // What was queued without an accepted receipt is held back.
    assert_eq!(pc.block_submission.diagnostic_snapshot().dispatch_blocked, 1);
    assert!(pc.begin_file_block_io_turn(4, &vec![], 0).expect("turn").1.is_empty());
}

#[test]
fn a_block_turn_counts_the_kicks_that_were_accepted() {
    let mut pc = file(107, 4, true);
    let request = stage_read(&mut pc, 1, 1);
    submit_bios(&mut pc, request, vec![bio_only(), bio(BlockOp::Read, 70, 1, 512)])
        .expect("queued transfers");
    let next = RoutedAction {
        action: PageL6Action { id: request.id, bios: vec![bio(BlockOp::Read, 90, 2, 512)], merges: vec![] },
        applied: Some(BackendSubmitOutcome::QueuedPageCompletions { queued: 2, wake: true }),
    };
    let turn = pc
        .drive_file_block_io_service_once(
            1,
            &vec![],
            3,
            vec![DeviceEvent {
                completion: ok(BlockTag(1)),
                routes: Some(PreparedRoutes { queued: 1, wake: false, actions: vec![next] }),
                retires: vec![],
            }],
            &vec![false, true],
        )
        .expect("turn");
    assert_eq!(
        turn,
        FileBlockServiceTurn {
            dispatched: 1,
            device_completions: 1,
            page_completions: 3,
            next: BlockServiceNext::Runnable,
            kicks: 4,
        }
    );
}

#[test]
fn a_full_device_is_waited_for() {
    let mut block = BlockSubmissionHandle::new(4, 1);
    let receipt = block.submit_page_action(PageL6Action {
        id: PageIoRequestId::new(1),
        bios: vec![bio_only(), bio(BlockOp::Read, 70, 1, 512)],
        merges: vec![],
    });
    block.record_page_outcome(&BackendSubmitOutcome::BlockGraphQueued {
        submitted: receipt.submitted,
    });
    let driven = block.drive(4);
    assert_eq!(driven.dispatches.len(), 1);
    assert_eq!(driven.next, BlockServiceNext::WaitingForCompletion);
    block.complete_receipt(ok(BlockTag(1))).expect("known tag");
    assert_eq!(block.service_next(), BlockServiceNext::Runnable);
    assert_eq!(block.drive(0).next, BlockServiceNext::Runnable);
    let driven = block.drive(4);
    assert_eq!(driven.next, BlockServiceNext::Sleeping);
    assert_eq!(block.service_next(), BlockServiceNext::WaitingForCompletion);
    block.complete_receipt(ok(BlockTag(2))).expect("known tag");
    assert_eq!(block.service_next(), BlockServiceNext::Sleeping);
}
