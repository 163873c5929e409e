use page_backed::backend::BackendPlan;
use page_backed::block_runtime::{
    BackendSubmitOutcome, BioPlan, BlockDeviceCompletion, BlockOp, BlockPageCompletion,
    BlockRequestId, BlockTag, LbaRange, PageL6Action, SubmitOutcome,
};
use page_backed::completion::{graph_wanted_after, CompletionAnswers, PlannerNotice};
use page_backed::container::{
    AnonSwapPolicy, FilePageFetchId, MaterializeAccess, MountPin, PageContainer, PageContainerKind,
};
use page_backed::direct_io::{DirectIoBuffer, UserAccessKind, UserPageSnapshot};
use page_backed::fetch::FilePageFetchStart;
use page_backed::frame::{
    CachePin, CachedFrame, MaterializedPageSnapshot, PageCacheError, PageLease,
};
use page_backed::fsync::FileFsyncState;
use page_backed::ids::{
    AllocError, Errno, FsObjectId, IoDataLeaseId, PageGeneration, PageIndex, PageIoRequestId, Ppn,
    USER_PAGE_SIZE,
};
use page_backed::io::{
    PageIoCompletion, PageIoCompletionKind, PageIoFlags, PageIoOp, PageIoPriority, PageIoRange,
    PageIoRequest, PageIoResult,
};
use page_backed::lease::{PageDataLease, PageDataLeaseError};
use page_backed::lifecycle::{FsCall, ZeroTail};
use page_backed::materialize::PinGrants;
use page_backed::page_access::{AccessAnswers, AccessStep};
use page_backed::page_cache::{PageCacheIndex, PageCacheMark};
use page_backed::range::PageRange;
use page_backed::reclaim::{
    materialize_page_with_reclaim, reserve_page_lease_with_reclaim, ReclaimRegistry,
};
use page_backed::service::{
    BackendReply, BackendSubmission, DeviceEvent, FileBlockSubmissionTarget, PreparedRoutes,
    ServiceItem,
};
use page_backed::slot::{PageSlot, PageSlotCompletionError, PageSlotState};
use page_backed::step::{
    is_wait_source, wait_source_parts, yield_on_page_ready_source, NoProgress, PageProgress,
    StepOutcome, YieldShape,
};
use page_backed::writeback::{FileFsyncFrontier, FileFsyncFrontierAdvance};

fn file(object: u64, planner: bool) -> PageContainer {
    PageContainer::new(
        PageContainerKind::File {
            mount: MountPin { trace_id: 3, backend_planner: planner },
            fs_object_id: FsObjectId::new(object),
        },
        4,
    )
}

fn frame(ppn: usize) -> CachedFrame {
    CachedFrame::from_pin(CachePin { ppn: Ppn(ppn) })
}

fn seed(pc: &mut PageContainer, page: u64, dirty: bool) {
    pc.install_resident_if_absent_published_with(
        PageIndex::new(page),
        frame(0x100 + page as usize),
        dirty,
        true,
    )
    .expect("cached page");
}

fn pins() -> PinGrants {
    PinGrants { cache: Ok(()), map: Ok(()) }
}

fn granted() -> CompletionAnswers {
    CompletionAnswers { pinned: Ok(()), retire: true }
}

fn bio() -> BioPlan {
    BioPlan {
        device: 8,
        op: BlockOp::Read,
        range: LbaRange { start: 64, count: 1 },
        vecs: vec![],
    }
}

#[test]
fn a_batch_is_withdrawn_with_one_publication() {
    let mut pc = file(1, false);
    for page in 0..4u64 {
        seed(&mut pc, page, page == 2);
    }
    let candidates: Vec<(PageIndex, Ppn)> =
        (0..4u64).map(|page| (PageIndex::new(page), Ppn(0x100 + page as usize))).collect();
    assert_eq!(
        pc.withdraw_resident_batch_published(&candidates, true, false),
        Err(PageCacheError::Backend(Errno::EAGAIN))
    );
    assert_eq!(pc.resident_pages(), 4);
    assert_eq!(pc.withdraw_resident_batch_published(&candidates, true, true), Ok(3));
    assert_eq!(pc.lookup(PageIndex::new(2)), Some(Ppn(0x102)));
    assert!(pc.lookup_resident(PageIndex::new(1)).is_none());
    let wrong = vec![(PageIndex::new(2), Ppn(0x999))];
    assert_eq!(pc.withdraw_resident_batch_published(&wrong, false, true), Ok(0));
    assert_eq!(pc.withdraw_resident_batch_published(&candidates, false, true), Ok(1));
    assert_eq!(pc.resident_pages(), 0);
}

#[test]
fn the_tail_of_a_file_is_dropped_at_once_or_not_at_all() {
    let mut pc = file(2, false);
    for page in 0..4u64 {
        seed(&mut pc, page, false);
    }
    assert!(!pc.withdraw_cached_pages_from(PageIndex::new(2), false));
    assert_eq!(pc.resident_pages(), 4);
    assert!(pc.withdraw_cached_pages_from(PageIndex::new(2), true));
    assert_eq!(pc.resident_pages(), 2);
    assert!(pc.withdraw_cached_pages_from(PageIndex::new(2), false), "nothing is left to drop");
}

#[test]
fn a_page_can_be_withdrawn_only_as_it_is() {
    let mut pc = file(3, false);
    seed(&mut pc, 0, true);
    seed(&mut pc, 1, false);
    let page = PageIndex::new(0);
    assert_eq!(pc.withdrawable_generation(page, Ppn(0x100), true), None);
    assert_eq!(
        pc.withdrawable_generation(page, Ppn(0x100), false),
        Some(PageGeneration::new(2))
    );
    assert_eq!(pc.withdrawable_generation(page, Ppn(0x101), false), None);
    assert!(pc.withdrawable_generation(PageIndex::new(1), Ppn(0x101), true).is_some());
    assert_eq!(pc.withdrawable_generation(PageIndex::new(2), Ppn(0x102), false), None);
}

#[test]
fn a_lease_over_segments_is_bounded_and_paired() {
    let pages = |count: usize| -> Vec<PageLease> {
        (0..count).map(|i| PageLease::from_pin(CachePin { ppn: Ppn(i + 1) })).collect()
    };
    let generations = |count: usize| -> Vec<(PageIndex, PageGeneration)> {
        (0..count as u64).map(|i| (PageIndex::new(i), PageGeneration::new(1))).collect()
    };
    let lease = |pages, generations| {
        PageDataLease::from_segments(IoDataLeaseId::new(1), 2, pages, generations)
    };
    assert!(lease(pages(2), generations(2)).is_ok());
    assert!(matches!(lease(pages(0), generations(0)), Err(PageDataLeaseError::Empty)));
    assert!(matches!(lease(pages(3), generations(3)), Err(PageDataLeaseError::TooManyPages)));
    assert!(matches!(lease(pages(2), generations(1)), Err(PageDataLeaseError::Unpaired)));
}

#[test]
fn a_fresh_lease_needs_a_frame_and_a_pin() {
    let mut pc = file(3, false);
    seed(&mut pc, 0, false);
    let mut registry = ReclaimRegistry::new();
    registry.containers.push(Some(pc));
    let credits = vec![vec![true]];
    let exhausted = Err(AllocError::Exhausted);
    assert_eq!(
        reserve_page_lease_with_reclaim(&mut registry, Ok(Ppn(7)), exhausted, &credits, Ok(()))
            .expect("lease")
            .ppn(),
        Ppn(7)
    );
    assert_eq!(
        reserve_page_lease_with_reclaim(
            &mut registry,
            Ok(Ppn(7)),
            exhausted,
            &credits,
            Err(AllocError::InvalidRequest)
        )
        .err(),
        Some(PageCacheError::Alloc(AllocError::InvalidRequest))
    );
    let resident = |registry: &ReclaimRegistry| {
        registry.containers[0].as_ref().expect("container").resident_pages()
    };
    assert_eq!(resident(&registry), 1);
    assert_eq!(
        reserve_page_lease_with_reclaim(&mut registry, exhausted, Ok(Ppn(8)), &credits, Ok(()))
            .expect("a frame after the reclaim")
            .ppn(),
        Ppn(8)
    );
    assert_eq!(resident(&registry), 0);
    assert_eq!(
        reserve_page_lease_with_reclaim(&mut registry, exhausted, exhausted, &credits, Ok(()))
            .err(),
        Some(PageCacheError::Alloc(AllocError::Exhausted))
    );
}

#[test]
fn a_page_named_twice_undoes_a_withdrawal() {
    let mut pc = file(4, false);
    seed(&mut pc, 0, false);
    let twice = vec![(PageIndex::new(0), Ppn(0x100)); 2];
    assert_eq!(
        pc.withdraw_resident_batch_published(&twice, true, true),
        Err(PageCacheError::MissingPage)
    );
    assert_eq!(pc.resident_pages(), 1);
    let mixed = vec![(PageIndex::new(0), Ppn(0x999)), (PageIndex::new(0), Ppn(0x100))];
    assert_eq!(pc.withdraw_resident_batch_published(&mixed, true, true), Ok(1));
}

#[test]
fn an_absent_anonymous_page_is_reclaimed_for_when_memory_is_low() {
    let mut pc = file(5, false);
    seed(&mut pc, 0, false);
    let mut registry = ReclaimRegistry::new();
    registry.containers.push(Some(pc));
    let credits = vec![vec![true]];
    let mut anon = PageContainer::new(
        PageContainerKind::Anon { swap_policy: AnonSwapPolicy::Reclaimable },
        1,
    );
    let answers = || AccessAnswers {
        pins: pins(),
        retire: true,
        allocated: Ok(CachedFrame::from_pin(CachePin { ppn: Ppn(9) })),
        fresh: 1,
    };
    let page = PageIndex::new(0);
    let read = MaterializeAccess::Read;
    let mut access = |registry: &mut ReclaimRegistry, page, free| {
        materialize_page_with_reclaim(
            registry, &mut anon, page, read, Ok(free), &credits, answers(),
        );
        registry.containers[0].as_ref().expect("container").resident_pages()
    };
    assert_eq!(access(&mut registry, PageIndex::new(1), 1024), 1);
    assert_eq!(access(&mut registry, page, 1024), 0);
    assert_eq!(anon.lookup(page), Some(Ppn(9)));
}

#[test]
fn the_owner_of_a_fetch_reclaims_when_memory_is_low() {
    let mut pc = file(6, false);
    seed(&mut pc, 0, false);
    seed(&mut pc, 2, true);
    let mut registry = ReclaimRegistry::new();
    registry.containers.push(Some(pc));
    let credits = vec![vec![true; 2]];
    let answers = || AccessAnswers {
        pins: pins(),
        retire: true,
        allocated: Err(PageCacheError::Alloc(AllocError::Exhausted)),
        fresh: 1,
    };
    let resident = |registry: &ReclaimRegistry| {
        registry.containers[0].as_ref().expect("container").resident_pages()
    };
    let page = PageIndex::new(1);
    let turn = registry.materialize_file_page_with_reclaim(
        0, PageIndex::new(0), MaterializeAccess::Read, answers(), Ok(1), &credits,
    );
    assert!(matches!(turn.step, AccessStep::Finished(_)));
    assert_eq!(resident(&registry), 2);
    let turn = registry.materialize_file_page_with_reclaim(
        0, page, MaterializeAccess::Write, answers(), Ok(1), &credits,
    );
    assert!(matches!(turn.step, AccessStep::PrepareWrite { .. }));
    assert_eq!(resident(&registry), 2);
    let turn = registry.resume_prepared_write_with_reclaim(
        0, page, MaterializeAccess::Write, StepOutcome::Done(()), answers(), Ok(1), &credits,
    );
    assert!(matches!(turn.step, AccessStep::Fetch { .. }));
    assert_eq!(resident(&registry), 1);
}

#[test]
fn a_read_without_a_slot_or_a_pin_is_of_no_fetch() {
    let mut pc = file(7, false);
    let refused = CompletionAnswers { pinned: Err(AllocError::Exhausted), retire: true };
    assert_eq!(
        pc.apply_file_io_read_frame_completion(
            PageIndex::new(0),
            PageGeneration::new(3),
            Ppn(5),
            refused
        ),
        Err(PageSlotCompletionError::NotFetching {
            state: PageSlotState::Empty,
            generation: PageGeneration::new(0),
        })
    );
}

#[test]
fn only_a_durable_success_asks_for_a_background_graph() {
    let object = FsObjectId::new(8);
    let fsync = |result| PlannerNotice::Fsync { object, id: PageIoRequestId::new(1), result };
    assert_eq!(graph_wanted_after(fsync(PageIoResult::Done)), Some(object));
    assert_eq!(graph_wanted_after(fsync(PageIoResult::Failed(Errno::EIO))), None);
    assert_eq!(
        graph_wanted_after(PlannerNotice::BackgroundGraph { object, result: Ok(()) }),
        None
    );
}

#[test]
fn page_indices_are_ordered_by_number() {
    assert!(PageIndex::new(2) < PageIndex::new(10));
    assert!(PageIndex::new(10) > PageIndex::new(2));
    assert_eq!(PageIndex::new(2).partial_cmp(&PageIndex::new(2)), Some(std::cmp::Ordering::Equal));
    assert_eq!(PageIndex::new(7).as_u64(), 7);
}

#[test]
fn a_device_page_is_mapped_without_a_pin() {
    let snapshot = |device| MaterializedPageSnapshot {
        ppn: Ppn(4),
        device,
        newly_installed: true,
        dirty: false,
    };
    let refused = Err(AllocError::Exhausted);
    assert_eq!(snapshot(true).into_materialized(refused).expect("device").ppn, Ppn(4));
    assert_eq!(
        snapshot(false).into_materialized(refused).err(),
        Some(PageCacheError::Alloc(AllocError::Exhausted))
    );
    assert!(snapshot(false).into_materialized(Ok(())).expect("page").newly_installed);
}

#[test]
fn the_pages_of_a_range_are_listed_in_order() {
    let mut index = PageCacheIndex::new();
    for page in [7u64, 1, 4] {
        index.install_if_absent(PageIndex::new(page), frame(page as usize)).expect("install");
    }
    let range = PageRange::new(PageIndex::new(1), 4);
    assert_eq!(
        index.clean_pages_in_range(range),
        vec![(PageIndex::new(1), Ppn(1)), (PageIndex::new(4), Ppn(4))]
    );
    assert!(index.clean_pages_in_range(PageRange::new(PageIndex::new(u64::MAX), 2)).is_empty());
    assert!(index.get_mark(PageIndex::new(4), PageCacheMark::Referenced));
    assert!(!index.get_mark(PageIndex::new(4), PageCacheMark::NoReclaim));
    assert!(!index.get_mark(PageIndex::new(5), PageCacheMark::Referenced));
    assert!(index.erase(PageIndex::new(4)).is_some());
    assert!(index.erase(PageIndex::new(4)).is_none());
}

#[test]
fn a_backend_fsync_runs_after_the_frontier() {
    let mut pc = file(4, true);
    let mut state = FileFsyncState::from_frontier(FileFsyncFrontier::empty());
    assert_eq!(state.submit_backend_fsync(&mut pc), Ok(()));
    assert_eq!(state.submit_backend_fsync(&mut pc), Ok(()));
    assert_eq!(pc.page_submission.submission_len(), 1, "one request for one fsync");
    assert_eq!(state.advance(&mut pc, &vec![], &vec![]), Ok(FileFsyncFrontierAdvance::Waiting));
    let id = state.request.expect("durability request");
    let completion = PageIoCompletion::new(
        id,
        PageIoRange::new(0, 4),
        PageIoResult::Done,
        PageGeneration::new(0),
        PageIoCompletionKind::Noop,
    );
    assert!(pc.terminalize_file_fsync_submission(completion));
    assert_eq!(state.advance(&mut pc, &vec![], &vec![]), Ok(FileFsyncFrontierAdvance::Complete));
    assert!(state.backend_finished());
}

#[test]
fn an_fsync_that_was_never_submitted_ends_in_its_error() {
    let mut pc = file(5, true);
    let id = pc.submit_file_fsync().expect("durability request");
    let request = pc
        .page_submission
        .find_submission(PageIoRange::new(0, 4), PageIoOp::Fsync)
        .expect("queued");
    assert_eq!(request.id, id);
    let (_, completion) = pc.fail_unsubmitted_file_io_request(request, Errno::ENOSYS, granted());
    let completion = completion.expect("an fsync is told of its end");
    assert_eq!(completion.result, PageIoResult::Failed(Errno::ENOSYS));
    assert_eq!(completion.kind, PageIoCompletionKind::Noop);
    assert!(pc.terminalize_file_fsync_submission(completion));
    assert_eq!(pc.take_file_fsync_submission(id), Some(Err(Errno::ENOSYS)));
}

#[test]
fn device_memory_is_not_faulted_in() {
    let mut pc = PageContainer::new(
        PageContainerKind::Device { base_ppn: Ppn(0x40), page_count: 2 },
        2,
    );
    let answers = |ppn| AccessAnswers { pins: pins(), retire: true, allocated: Ok(frame(ppn)), fresh: 1 };
    let turn =
        pc.materialize_page_for_fault_step(PageIndex::new(0), MaterializeAccess::Read, answers(1));
    assert!(matches!(
        turn.step,
        AccessStep::Finished(StepOutcome::Error(Errno::EINVAL))
    ));
    let mut pc = file(6, false);
    seed(&mut pc, 0, false);
    let turn =
        pc.materialize_page_for_fault_step(PageIndex::new(0), MaterializeAccess::Read, answers(1));
    assert!(matches!(turn.step, AccessStep::Finished(StepOutcome::Done(_))));
}

#[test]
fn a_completed_read_is_found_in_the_target_it_retained() {
    let mut pc = file(7, true);
    let start = pc.begin_file_page_fetch(
        PageIndex::new(1),
        MaterializeAccess::Read,
        Some(frame(0x77)),
        pins(),
        1,
    );
    assert!(matches!(start, FilePageFetchStart::Owner(_)));
    let request = pc
        .page_submission
        .find_submission(PageIoRange::new(1, 1), PageIoOp::Read)
        .expect("read");
    let done = BlockPageCompletion { request, result: Ok(()) };
    assert_eq!(pc.file_io_read_target_for_completion(&done), Some(Ppn(0x77)));
    let failed = BlockPageCompletion { request, result: Err(Errno::EIO) };
    assert_eq!(pc.file_io_read_target_for_completion(&failed), None);
    let other = BlockPageCompletion {
        request: PageIoRequest { id: PageIoRequestId::new(99), ..request },
        result: Ok(()),
    };
    assert_eq!(pc.file_io_read_target_for_completion(&other), None);
    let written = BlockPageCompletion {
        request: PageIoRequest { op: PageIoOp::Writeback, ..request },
        result: Ok(()),
    };
    assert_eq!(pc.file_io_read_target_for_completion(&written), None);
}

#[test]
fn only_the_owner_of_a_fetch_parks_on_it() {
    let mut pc = file(8, true);
    let page = PageIndex::new(1);
    let FilePageFetchStart::Owner(id) =
        pc.begin_file_page_fetch(page, MaterializeAccess::Read, Some(frame(0x78)), pins(), 1)
    else {
        panic!("owner");
    };
    let stranger = FilePageFetchId(id.0 + 1);
    assert!(pc
        .yield_on_file_page_fetch(page, MaterializeAccess::Read, stranger, pins(), 5)
        .is_none());
    let parked = pc.yield_on_file_page_fetch(page, MaterializeAccess::Read, id, pins(), 5);
    assert_eq!(parked, Some(yield_on_page_ready_source(NoProgress, 5)));
    let generation = pc.page_slot_snapshot(page).expect("slot").generation;
    let other = PageGeneration::new(generation.raw() + 1);
    assert_eq!(pc.finish_file_page_fetch_after_service_completion(page, other, true), None);
    assert_eq!(pc.finish_file_page_fetch_after_service_completion(page, generation, true), Some(5));
    assert_eq!(pc.finish_file_page_fetch_after_planned_install(page, id), None);
}

#[test]
fn a_waiting_step_names_its_source() {
    let shape = YieldShape::OnWaitSource { source: 9, interests: 0x44 };
    assert_eq!(wait_source_parts(&shape), Some((9, 0x44)));
    assert!(is_wait_source(&shape));
    assert_eq!(wait_source_parts(&YieldShape::OnAgent), None);
    assert!(!is_wait_source(&YieldShape::OnAgent));
}

#[test]
fn a_slot_is_invalidated_only_as_its_version() {
    let mut slot = PageSlot::new();
    slot.begin_fetch();
    let generation = slot.generation();
    assert!(slot.invalidate_if_generation(PageGeneration::new(generation.raw() + 1)).is_err());
    assert_eq!(slot.snapshot().state, PageSlotState::Fetching);
    assert!(slot.invalidate_if_generation(generation).is_ok());
    assert_eq!(slot.snapshot().state, PageSlotState::Empty);
    assert_ne!(slot.generation(), generation);
}

#[test]
fn the_part_of_a_page_beyond_the_end_is_cleared() {
    let mut pc = file(9, false);
    seed(&mut pc, 1, false);
    assert_eq!(
        pc.partial_eof_tail(4096 + 100),
        Some(ZeroTail { ppn: Ppn(0x101), offset: 100, len: 3996 })
    );
    assert_eq!(pc.partial_eof_tail(4096), None);
    assert_eq!(pc.partial_eof_tail(100), None, "page 0 is not cached");
    assert!(pc.can_resize(4 * 4096));
    assert!(!pc.can_resize(4 * 4096 + 1));
}

#[test]
fn a_flush_writes_dirty_pages_in_order() {
    let mut pc = file(10, false);
    for page in [3u64, 0, 1] {
        seed(&mut pc, page, page != 1);
    }
    let done = || StepOutcome::Done(());
    let report = pc.flush_dirty_pages_to_file_backing(&vec![done()]);
    assert_eq!(report.outcome, StepOutcome::Continue { progress: PageProgress::new(1) });
    let report = pc.flush_dirty_pages_to_file_backing(&vec![done(), done()]);
    assert_eq!(report.outcome, StepOutcome::Done(1));
    assert_eq!(
        report.calls,
        vec![FsCall::FlushPage {
            object: FsObjectId::new(10),
            offset: 3 * USER_PAGE_SIZE as u64,
            ppn: Ppn(0x103),
        }]
    );
    assert!(pc.size_correction().is_some());
    pc.finish_size_correction(&StepOutcome::Error(Errno::EIO));
    assert!(pc.size_correction().is_some());
    pc.finish_size_correction(&done());
    assert_eq!(pc.size_correction(), None);
}

#[test]
fn a_direct_plan_is_asked_about_the_leased_range() {
    let mut pc = file(11, true);
    let buffer = DirectIoBuffer::pin(
        0x1000,
        USER_PAGE_SIZE,
        UserAccessKind::Read,
        &vec![UserPageSnapshot { ppn: Ppn(1), readable: true, writable: false }],
        &vec![Ok(())],
        44,
    )
    .expect("buffer");
    let range = PageRange::new(PageIndex::new(2), 1);
    let submission = pc.submit_file_direct_write(range, buffer, true).expect("admitted");
    let request = pc.begin_file_direct_plan(&submission).expect("planning");
    assert_eq!(request.id, PageIoRequestId::new(44));
    assert_eq!(request.op, PageIoOp::Writeback);
    assert_eq!(request.priority, PageIoPriority::ForegroundWrite);
    assert_eq!(request.flags, PageIoFlags::Writeback);
    assert_eq!(request.range, PageIoRange::new(2, 1));
    let plan = BackendPlan::SubmitBios(vec![bio()]);
    assert!(pc.finish_file_direct_plan(submission.lease_id(), Some(plan), None).kick_block);
    assert!(pc.block_submission.has_immediate_work());
    let (_, dispatches) = pc.begin_file_block_io_turn(1, &vec![], 0).expect("turn");
    assert_eq!(dispatches[0].tag, BlockTag(1));
    assert!(pc.block_submission.has_in_flight());
}

#[test]
fn one_item_and_one_event_can_be_served_alone() {
    let mut pc = file(12, true);
    let request = PageIoRequest::new(
        PageIoRequestId::new(1),
        PageIoRange::new(1, 1),
        PageIoOp::Read,
        PageIoPriority::Demand,
        PageIoFlags::Demand,
        None,
    );
    let submission = BackendSubmission::Submit {
        action: PageL6Action { id: request.id, bios: vec![bio()], merges: vec![] },
        applied: Ok(BackendSubmitOutcome::BlockBiosQueued {
            request,
            submitted: vec![SubmitOutcome::Queued(BlockRequestId(1))],
        }),
    };
    let item = ServiceItem::Submission {
        request,
        reply: BackendReply::Planned { graph: false, submission },
        answers: granted(),
    };
    let end = pc.serve_file_io_item(item, FileBlockSubmissionTarget::Owned);
    assert_eq!(end.notify, None);
    assert_eq!(pc.block_submission.tracker_len(), 1);

    let (turn, _) = pc.begin_file_block_io_turn(1, &vec![], 2).expect("turn");
    let turn = pc
        .apply_device_event(
            turn,
            DeviceEvent {
                completion: BlockDeviceCompletion { tag: BlockTag(1), result: Ok(()) },
                routes: Some(PreparedRoutes { queued: 1, wake: true, actions: vec![] }),
                retires: vec![],
            },
        )
        .expect("completion");
    assert_eq!(turn.page_completions, 1);
    assert_eq!(turn.page_kicks, 1);
    assert_eq!(turn.driven_kicks, 2);
    assert_eq!(pc.block_submission.tracker_len(), 0);
}

#[test]
fn a_read_goes_into_the_frame_that_the_backend_names() {
    let mut pc = file(13, false);
    let page = PageIndex::new(1);
    let FilePageFetchStart::Owner(_) =
        pc.begin_file_page_fetch(page, MaterializeAccess::Read, None, pins(), 1)
    else {
        panic!("owner");
    };
    let generation = pc.page_slot_snapshot(page).expect("slot").generation;
    let refused = CompletionAnswers { pinned: Err(AllocError::Exhausted), retire: true };
    let ended = pc
        .apply_file_io_read_frame_completion(page, generation, Ppn(6), refused)
        .expect("the fetch ends in an error");
    assert_eq!(ended.state, PageSlotState::Error { errno: Errno::ENOMEM });
    assert_eq!(pc.lookup(page), None);

    let mut pc = file(14, false);
    pc.begin_file_page_fetch(page, MaterializeAccess::Read, None, pins(), 1);
    let ended = pc
        .apply_file_io_read_frame_completion(page, generation, Ppn(6), granted())
        .expect("installed");
    assert_eq!(ended.state, PageSlotState::Resident { ppn: Ppn(6) });
    assert_eq!(pc.lookup(page), Some(Ppn(6)));
    let stale = PageGeneration::new(generation.raw() + 1);
    assert!(pc.apply_file_io_cached_read_completion(page, stale, frame(7), true).is_err());
}
