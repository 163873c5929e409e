use page_backed::completion::CompletionAnswers;
use page_backed::container::{
    AnonSwapPolicy, MountPin, PageContainer, PageContainerKind,
};
use page_backed::frame::{CachePin, CachedFrame, PageLease};
use page_backed::fsync::FileFsyncState;
use page_backed::fsync_run::{begin_fsync, begin_planned_fsync, resume_fsync, FsyncNext};
use page_backed::ids::{
    Errno, FsObjectId, IoDataLeaseId, PageGeneration, PageIndex, PageIoRequestId, Ppn,
    USER_PAGE_SIZE,
};
use page_backed::io::{
    BioVec, IoDataSource, IoDataTarget, PageCompletionRoute, PageIoCompletion,
    PageIoCompletionKind, PageIoFlags, PageIoOp, PageIoPriority, PageIoRange, PageIoRequest,
    PageIoResult,
};
use page_backed::lease::{
    FileIoTerminalResult, OwnedFileIoRequest, PageDataLease, PageDataLeaseError,
};
use page_backed::lifecycle::{
    first_page_after_size, step_fallocate, step_fsync, step_truncate, DirtyPage, FallocateOp,
    FsCall, FsReply, FsyncOp, FsyncReplies, ResizeReport, TruncateOp, TruncatePhase, ZeroTail,
};
use page_backed::slot::{PageSlotCompletionError, PageSlotState};
use page_backed::step::{NoProgress, PageProgress, StepOutcome, YieldShape};
use page_backed::writeback::FileFsyncFrontierAdvance;

const PAGE: u64 = USER_PAGE_SIZE as u64;

fn done() -> FsReply {
    StepOutcome::Done(())
}

fn advancing() -> FsReply {
    StepOutcome::Continue { progress: NoProgress }
}

fn blocked(source: u64, interests: u64) -> FsReply {
    StepOutcome::Yield {
        progress: NoProgress,
        shape: YieldShape::OnWaitSource { source, interests },
    }
}

fn all_done(flushes: usize) -> FsyncReplies {
    FsyncReplies {
        flushes: (0..flushes).map(|_| done()).collect(),
        truncate: done(),
        sync: done(),
    }
}

fn file_page_container(object: u64) -> PageContainer {
    PageContainer::new(
        PageContainerKind::File {
            mount: MountPin { trace_id: 8, backend_planner: false },
            fs_object_id: FsObjectId::new(object),
        },
        4,
    )
}

fn anon(pages: u64) -> PageContainer {
    PageContainer::new(
        PageContainerKind::Anon { swap_policy: AnonSwapPolicy::Reclaimable },
        pages,
    )
}

fn device(base: usize) -> PageContainer {
    PageContainer::new(PageContainerKind::Device { base_ppn: Ppn(base), page_count: 1 }, 1)
}

fn frame(ppn: usize) -> CachedFrame {
    CachedFrame::from_pin(CachePin { ppn: Ppn(ppn) })
}

fn publish(pc: &mut PageContainer, page: u64) {
    assert!(pc
        .install_resident_if_absent_published(
            PageIndex::new(page),
            frame(0x100 + page as usize),
            true
        )
        .expect("publish page"));
}

fn seed_dirty_file_page(pc: &mut PageContainer, page: PageIndex) -> (Ppn, PageGeneration) {
    let ppn = Ppn(0x200 + page.as_u64() as usize);
    assert!(pc
        .install_resident_if_absent_published_with(page, frame(ppn.0), true, true)
        .expect("seed cached page"));
    let slot = pc.page_slot_snapshot(page).expect("slot");
    assert_eq!(slot.state, PageSlotState::Dirty { ppn });
    (ppn, slot.generation)
}

fn admitted_writeback_request(pc: &PageContainer, range: PageIoRange) -> PageIoRequest {
    pc.page_submission
        .find_submission(range, PageIoOp::Writeback)
        .expect("admitted writeback request")
}

fn granted() -> CompletionAnswers {
    CompletionAnswers { pinned: Ok(()), retire: true }
}

fn route(
    request: &PageIoRequest,
    result: PageIoResult,
    generation: PageGeneration,
    kind: PageIoCompletionKind,
) -> PageCompletionRoute {
    PageCompletionRoute {
        completion: PageIoCompletion::new(request.id, request.range, result, generation, kind),
        frame: None,
        has_waiters: false,
    }
}

fn state(pc: &PageContainer, page: PageIndex) -> PageSlotState {
    pc.page_slot_snapshot(page).expect("slot").state
}

fn truncate(pc: &mut PageContainer, size: u64) -> ResizeReport {
    step_truncate(pc, size, &done(), true)
}

#[test]
fn two_page_writeback_admits_one_range_and_retains_both_frames() {
    let mut pc = file_page_container(0x80);
    let first = PageIndex::new(0);
    let second = PageIndex::new(1);
    let (first_ppn, _) = seed_dirty_file_page(&mut pc, first);
    let (second_ppn, _) = seed_dirty_file_page(&mut pc, second);

    assert_eq!(pc.queue_dirty_file_writeback(&vec![Ok(()), Ok(())], &vec![]), 2);
    assert_eq!(pc.page_submission.submission_len(), 1);
    assert_eq!(pc.page_submission.admitted_file_request_count(), 1);
    let request = admitted_writeback_request(&pc, PageIoRange::new(0, 2));
    let (source, target) = pc.prepare_owned_file_io_request(&request);
    let IoDataSource::Direct { vecs, .. } = source else {
        panic!("two-page writeback must project both frames");
    };
    assert_eq!(vecs.len(), 2);
    assert_eq!(vecs[0].frame, first_ppn.0 as u64);
    assert_eq!(vecs[1].frame, second_ppn.0 as u64);
    assert_eq!(target, IoDataTarget::Absent);
}

#[test]
fn vfs_fsync_op_calls_backing_once_after_an_empty_frontier_without_l4_fsync() {
    let mut pc = PageContainer::new(
        PageContainerKind::File {
            mount: MountPin { trace_id: 1, backend_planner: true },
            fs_object_id: FsObjectId::new(107),
        },
        2,
    );
    let mut fsyncs = 0;
    let mut state = FileFsyncState::new();
    let advance = state.advance(&mut pc, &vec![], &vec![]);
    let mut next = begin_planned_fsync(&pc, advance);
    let outcome = loop {
        match next {
            FsyncNext::Ended(outcome) => break outcome,
            FsyncNext::Call { call, run } => {
                assert_eq!(call, FsCall::SyncFile { object: FsObjectId::new(107) });
                fsyncs += 1;
                next = resume_fsync(&mut pc, run, &done());
            }
        }
    };
    assert_eq!(outcome, StepOutcome::Done(()));
    assert_eq!(fsyncs, 1);
    assert!(pc
        .page_submission
        .find_submission(PageIoRange::new(0, 2), PageIoOp::Fsync)
        .is_none());
}

#[test]
fn two_page_writeback_pre_admission_failure_rolls_back_first_page() {
    let mut pc = file_page_container(0x81);
    let first = PageIndex::new(0);
    let missing = PageIndex::new(1);
    let (first_ppn, _) = seed_dirty_file_page(&mut pc, first);

    assert_eq!(
        pc.queue_file_writeback_batch(&vec![first, missing], &vec![Ok(()), Ok(())]),
        None
    );
    assert_eq!(pc.page_submission.admitted_file_request_count(), 0);
    assert_eq!(pc.page_submission.submission_len(), 0);
    assert_eq!(state(&pc, first), PageSlotState::Dirty { ppn: first_ppn });
}

#[test]
fn two_page_writeback_submit_failure_rolls_back_both_pages_once() {
    let mut pc = file_page_container(0x82);
    let first = PageIndex::new(0);
    let second = PageIndex::new(1);
    let (first_ppn, _) = seed_dirty_file_page(&mut pc, first);
    let (second_ppn, _) = seed_dirty_file_page(&mut pc, second);
    assert_eq!(pc.queue_dirty_file_writeback(&vec![Ok(()), Ok(())], &vec![]), 2);
    let request = admitted_writeback_request(&pc, PageIoRange::new(0, 2));

    assert!(pc
        .finish_owned_file_io_request(request, FileIoTerminalResult::SubmitFailure, granted())
        .result
        .is_some());
    assert_eq!(pc.page_submission.admitted_file_request_count(), 0);
    assert_eq!(pc.page_submission.admitted_file_writeback_count(), 0);
    assert_eq!(state(&pc, first), PageSlotState::Dirty { ppn: first_ppn });
    assert_eq!(state(&pc, second), PageSlotState::Dirty { ppn: second_ppn });
    assert_eq!(
        pc.finish_owned_file_io_request(request, FileIoTerminalResult::SubmitFailure, granted())
            .result,
        None
    );
}

#[test]
fn two_page_writeback_success_preserves_redirtied_sibling() {
    let mut pc = file_page_container(0x83);
    let first = PageIndex::new(0);
    let second = PageIndex::new(1);
    let (first_ppn, first_generation) = seed_dirty_file_page(&mut pc, first);
    let (second_ppn, _) = seed_dirty_file_page(&mut pc, second);
    assert_eq!(pc.queue_dirty_file_writeback(&vec![Ok(()), Ok(())], &vec![]), 2);
    let request = admitted_writeback_request(&pc, PageIoRange::new(0, 2));
    pc.page_slots
        .get_mut(second.as_u64())
        .mark_dirty()
        .expect("redirty second page");
    let completion = route(
        &request,
        PageIoResult::Done,
        first_generation,
        PageIoCompletionKind::WritebackFinished,
    );

    assert!(pc.apply_file_io_completion_route(&completion, granted()).result.is_some());
    assert_eq!(pc.page_submission.admitted_file_request_count(), 0);
    assert_eq!(state(&pc, first), PageSlotState::Resident { ppn: first_ppn });
    assert_eq!(state(&pc, second), PageSlotState::Dirty { ppn: second_ppn });
    assert_eq!(pc.apply_file_io_completion_route(&completion, granted()).result, None);
}

#[test]
fn two_page_writeback_settles_successful_sibling_when_other_slot_is_stale() {
    let mut pc = file_page_container(0x84);
    let first = PageIndex::new(0);
    let second = PageIndex::new(1);
    let (first_ppn, first_generation) = seed_dirty_file_page(&mut pc, first);
    seed_dirty_file_page(&mut pc, second);
    assert_eq!(pc.queue_dirty_file_writeback(&vec![Ok(()), Ok(())], &vec![]), 2);
    let request = admitted_writeback_request(&pc, PageIoRange::new(0, 2));
    pc.page_slots.get_mut(second.as_u64()).invalidate();
    let completion = route(
        &request,
        PageIoResult::Done,
        first_generation,
        PageIoCompletionKind::WritebackFinished,
    );

    assert!(matches!(
        pc.apply_file_io_completion_route(&completion, granted()).result,
        Some(Err(PageSlotCompletionError::NotFetching { .. }))
    ));
    assert_eq!(pc.page_submission.admitted_file_request_count(), 0);
    assert_eq!(state(&pc, first), PageSlotState::Resident { ppn: first_ppn });
    assert_eq!(state(&pc, second), PageSlotState::Empty);
}

#[test]
fn two_page_writeback_device_error_settles_both_pages() {
    let mut pc = file_page_container(0x85);
    let first = PageIndex::new(0);
    let second = PageIndex::new(1);
    let (_, first_generation) = seed_dirty_file_page(&mut pc, first);
    seed_dirty_file_page(&mut pc, second);
    assert_eq!(pc.queue_dirty_file_writeback(&vec![Ok(()), Ok(())], &vec![]), 2);
    let request = admitted_writeback_request(&pc, PageIoRange::new(0, 2));
    let completion = route(
        &request,
        PageIoResult::Failed(Errno::EIO),
        first_generation,
        PageIoCompletionKind::WritebackFinished,
    );

    assert!(pc.apply_file_io_completion_route(&completion, granted()).result.is_some());
    assert_eq!(pc.page_submission.admitted_file_request_count(), 0);
    assert_eq!(state(&pc, first), PageSlotState::Error { errno: Errno::EIO });
    assert_eq!(state(&pc, second), PageSlotState::Error { errno: Errno::EIO });
}

#[test]
fn writeback_completion_with_read_kind_rolls_back_before_consuming_owner() {
    let mut pc = file_page_container(0x86);
    let page = PageIndex::new(0);
    let (ppn, generation) = seed_dirty_file_page(&mut pc, page);
    let request_id = pc.queue_file_page_writeback(page, Ok(())).expect("admit writeback");
    let request = admitted_writeback_request(&pc, PageIoRange::new(0, 1));
    assert_eq!(request.id, request_id);
    let wrong_kind = route(
        &request,
        PageIoResult::Done,
        generation,
        PageIoCompletionKind::ReadInstalled,
    );

    assert!(pc.apply_file_io_completion_route(&wrong_kind, granted()).result.is_some());
    assert_eq!(pc.page_submission.admitted_file_request_count(), 0);
    assert_eq!(state(&pc, page), PageSlotState::Dirty { ppn });
}

#[test]
fn owned_request_submit_failure_restores_writeback_and_releases_owner() {
    let mut pc = file_page_container(0x72);
    let page = PageIndex::new(0);
    let (ppn, generation) = seed_dirty_file_page(&mut pc, page);
    let request_id = pc.queue_file_page_writeback(page, Ok(())).expect("admit writeback");
    let request = admitted_writeback_request(&pc, PageIoRange::new(page.as_u64(), 1));
    assert_eq!(request.id, request_id);

    let (source, target) = pc.prepare_owned_file_io_request(&request);
    assert!(matches!(source, IoDataSource::PageCache { frame, .. } if frame == ppn));
    assert_eq!(target, IoDataTarget::Absent);
    assert_eq!(pc.page_submission.admitted_file_request_count(), 1);

    pc.finish_owned_file_io_request(request, FileIoTerminalResult::SubmitFailure, granted());

    assert_eq!(pc.page_submission.admitted_file_request_count(), 0);
    assert_eq!(pc.page_submission.admitted_file_writeback_count(), 0);
    assert_eq!(state(&pc, page), PageSlotState::Dirty { ppn });
    assert!(!pc.page_marks(page).expect("page marks").writeback);

    let duplicate = route(
        &request,
        PageIoResult::Done,
        generation,
        PageIoCompletionKind::WritebackFinished,
    );
    assert_eq!(pc.apply_file_io_completion_route(&duplicate, granted()).result, None);
    assert_eq!(state(&pc, page), PageSlotState::Dirty { ppn });
}

#[test]
fn duplicate_writeback_completion_has_no_second_terminal_action() {
    let mut pc = file_page_container(0x74);
    let page = PageIndex::new(0);
    let (ppn, generation) = seed_dirty_file_page(&mut pc, page);
    let request_id = pc.queue_file_page_writeback(page, Ok(())).expect("admit writeback");
    let request = admitted_writeback_request(&pc, PageIoRange::new(page.as_u64(), 1));
    assert_eq!(request.id, request_id);
    let completion = route(
        &request,
        PageIoResult::Done,
        generation,
        PageIoCompletionKind::WritebackFinished,
    );

    assert!(pc.apply_file_io_completion_route(&completion, granted()).result.is_some());
    assert_eq!(pc.page_submission.admitted_file_request_count(), 0);
    assert_eq!(state(&pc, page), PageSlotState::Resident { ppn });
    assert_eq!(pc.apply_file_io_completion_route(&completion, granted()).result, None);
    assert_eq!(pc.page_submission.admitted_file_request_count(), 0);
    assert_eq!(state(&pc, page), PageSlotState::Resident { ppn });
}

#[test]
fn control_only_writeback_completion_cannot_settle_page_slot() {
    let mut pc = file_page_container(0x73);
    let page = PageIndex::new(0);
    let (ppn, _) = seed_dirty_file_page(&mut pc, page);
    let generation = pc
        .page_slots
        .get_mut(page.as_u64())
        .begin_writeback()
        .expect("begin writeback")
        .generation;
    let request = PageIoRequest::new(
        PageIoRequestId::new(0x74),
        PageIoRange::new(page.as_u64(), 1),
        PageIoOp::Writeback,
        PageIoPriority::BackgroundWriteback,
        PageIoFlags::Writeback,
        Some(generation),
    );
    assert!(pc
        .page_submission
        .admit_file_request(OwnedFileIoRequest::control(request)));
    let completion = route(
        &request,
        PageIoResult::Done,
        generation,
        PageIoCompletionKind::WritebackFinished,
    );

    assert_eq!(pc.apply_file_io_completion_route(&completion, granted()).result, None);
    assert_eq!(pc.page_submission.admitted_file_request_count(), 0);
    assert_eq!(
        state(&pc, page),
        PageSlotState::Writeback { ppn, submitted_generation: generation, redirtied: false }
    );
    assert!(pc.page_marks(page).expect("page marks").dirty);
    assert!(pc.page_marks(page).expect("page marks").writeback);
}

#[test]
fn stale_writeback_completion_consumes_owner_without_mutating_slot() {
    let mut pc = file_page_container(0x73);
    let page = PageIndex::new(0);
    let (ppn, generation) = seed_dirty_file_page(&mut pc, page);
    let request_id = pc.queue_file_page_writeback(page, Ok(())).expect("admit writeback");
    let request = admitted_writeback_request(&pc, PageIoRange::new(page.as_u64(), 1));
    assert_eq!(request.id, request_id);
    let stale = route(
        &request,
        PageIoResult::Done,
        PageGeneration::new(generation.raw().saturating_add(1)),
        PageIoCompletionKind::WritebackFinished,
    );

    assert!(matches!(
        pc.apply_file_io_completion_route(&stale, granted()).result,
        Some(Err(PageSlotCompletionError::GenerationMismatch { .. }))
    ));
    assert_eq!(pc.page_submission.admitted_file_request_count(), 0);
    assert_eq!(pc.page_submission.admitted_file_writeback_count(), 0);
    assert_eq!(
        state(&pc, page),
        PageSlotState::Writeback { ppn, submitted_generation: generation, redirtied: false }
    );
}

#[test]
fn page_data_lease_projects_multi_page_source_without_copying_payload() {
    assert!(matches!(
        PageDataLease::from_pages(IoDataLeaseId::new(7), Vec::new()),
        Err(PageDataLeaseError::Empty)
    ));

    let first = PageLease::from_pin(CachePin { ppn: Ppn(0x31) });
    let second = PageLease::from_pin(CachePin { ppn: Ppn(0x32) });
    let lease = PageDataLease::from_pages(IoDataLeaseId::new(7), vec![first, second])
        .expect("multi-page lease");
    assert_eq!(
        lease.source(),
        IoDataSource::Direct {
            lease: IoDataLeaseId::new(7),
            vecs: vec![
                BioVec::new(0x31, 0, USER_PAGE_SIZE as u32),
                BioVec::new(0x32, 0, USER_PAGE_SIZE as u32),
            ],
        }
    );
}

#[test]
fn page_data_lease_keeps_single_page_projection_stable() {
    let page = PageLease::from_pin(CachePin { ppn: Ppn(0x33) });
    let lease = PageDataLease::from_pages(IoDataLeaseId::new(8), vec![page])
        .expect("single-page lease");
    assert_eq!(
        lease.source(),
        IoDataSource::PageCache {
            lease: IoDataLeaseId::new(8),
            frame: Ppn(0x33),
            offset: 0,
            len: USER_PAGE_SIZE as u32,
        }
    );
}

#[test]
fn pagebacked_step_truncate_withdraws_pages_at_or_beyond_new_size() {
    let mut pc = anon(4);
    for page in 0..4 {
        publish(&mut pc, page);
    }

    assert_eq!(truncate(&mut pc, PAGE + 1).outcome, StepOutcome::Done(()));

    assert_eq!(pc.size_bytes(), PAGE + 1);
    assert!(pc.lookup(PageIndex::new(0)).is_some());
    assert!(pc.lookup(PageIndex::new(1)).is_some());
    assert_eq!(pc.lookup(PageIndex::new(2)), None);
    assert_eq!(pc.lookup(PageIndex::new(3)), None);
    assert!(pc.lookup_resident(PageIndex::new(1)).is_some());
    assert!(pc.lookup_resident(PageIndex::new(2)).is_none());
}

#[test]
fn pagebacked_step_truncate_can_grow_visible_size_without_materializing_pages() {
    let mut pc = anon(4);
    assert_eq!(truncate(&mut pc, 8).outcome, StepOutcome::Done(()));
    assert_eq!(truncate(&mut pc, 2 * PAGE + 11).outcome, StepOutcome::Done(()));

    assert_eq!(pc.size_bytes(), 2 * PAGE + 11);
    assert_eq!(pc.resident_pages(), 0);
}

#[test]
fn pagebacked_step_truncate_asks_file_backing_before_withdrawal() {
    let mut pc = file_page_container(44);
    publish(&mut pc, 3);

    assert_eq!(
        pc.truncate_call(2 * PAGE),
        Some(FsCall::Truncate { object: FsObjectId::new(44), size: 2 * PAGE })
    );
    assert!(pc.lookup(PageIndex::new(3)).is_some());
    assert_eq!(truncate(&mut pc, 2 * PAGE).outcome, StepOutcome::Done(()));
    assert_eq!(pc.lookup(PageIndex::new(3)), None);
}

#[test]
fn pagebacked_truncate_op_retries_only_commit_after_root_backpressure() {
    let mut pc = file_page_container(0x4a);
    let page = PageIndex::new(3);
    publish(&mut pc, 3);
    let original_ppn = pc.lookup(page).expect("resident compatibility row");
    let original_size = pc.size_bytes();
    let original_slot = pc.page_slot_snapshot(page).expect("resident slot");
    let new_size = 2 * PAGE;
    let mut op = TruncateOp::new(new_size);

    assert_eq!(
        op.call(&pc),
        Some(FsCall::Truncate { object: FsObjectId::new(0x4a), size: new_size })
    );
    assert_eq!(
        op.step(&mut pc, &done(), false).outcome,
        StepOutcome::Continue { progress: PageProgress::new(0) }
    );
    assert_eq!(op.phase, TruncatePhase::Commit { advanced: false });
    assert_eq!(pc.size_bytes(), original_size);
    assert_eq!(pc.lookup(page), Some(original_ppn));
    assert_eq!(pc.page_slot_snapshot(page).expect("resident slot"), original_slot);
    assert_eq!(
        pc.lookup_resident(page).expect("old root binding").ppn(),
        original_ppn
    );

    assert_eq!(op.call(&pc), None, "the filesystem is not asked again");
    assert_eq!(
        op.step(&mut pc, &StepOutcome::Error(Errno::EIO), true).outcome,
        StepOutcome::Done(())
    );
    assert_eq!(pc.size_bytes(), new_size);
    assert_eq!(pc.lookup(page), None);
}

#[test]
fn pagebacked_step_truncate_leaves_state_unchanged_when_file_backing_fails() {
    let mut pc = file_page_container(45);
    publish(&mut pc, 3);
    let original_size = pc.size_bytes();

    assert_eq!(
        step_truncate(&mut pc, PAGE, &StepOutcome::Error(Errno::EROFS), true).outcome,
        StepOutcome::Error(Errno::EROFS)
    );

    assert_eq!(pc.size_bytes(), original_size);
    assert!(pc.lookup(PageIndex::new(3)).is_some());
    assert!(pc.truncate_call(PAGE).is_some());
}

#[test]
fn pagebacked_step_truncate_rejects_device_and_capacity_growth() {
    let mut device = device(0xface_1000);
    let mut anon = anon(1);

    assert_eq!(truncate(&mut device, 0).outcome, StepOutcome::Error(Errno::EINVAL));
    assert_eq!(truncate(&mut anon, 2 * PAGE).outcome, StepOutcome::Error(Errno::EINVAL));
    assert_eq!(device.truncate_call(0), None);
}

#[test]
fn close_visibility_publishes_exact_eof_without_flushing_page_data() {
    let mut pc = file_page_container(0x54);
    pc.set_size_bytes_persisted(0);
    pc.set_size_bytes(83);
    seed_dirty_file_page(&mut pc, PageIndex::new(0));

    let report = pc.publish_exact_size_for_close_visibility(&done());
    assert_eq!(report.outcome, StepOutcome::Done(()));
    assert_eq!(
        report.calls,
        vec![FsCall::Truncate { object: FsObjectId::new(0x54), size: 83 }]
    );
    assert!(pc.page_marks(PageIndex::new(0)).expect("page 0").dirty);

    let again = pc.publish_exact_size_for_close_visibility(&done());
    assert_eq!(again.calls, vec![]);
}

#[test]
fn pagebacked_step_fsync_flushes_dirty_file_pages_in_order_and_cleans_marks() {
    let mut pc = file_page_container(51);
    for page in [2, 0] {
        seed_dirty_file_page(&mut pc, PageIndex::new(page));
    }

    let report = step_fsync(&mut pc, &all_done(2));
    assert_eq!(report.outcome, StepOutcome::Done(()));

    let object = FsObjectId::new(51);
    assert_eq!(
        report.calls,
        vec![
            FsCall::FlushPage { object, offset: 0, ppn: Ppn(0x200) },
            FsCall::FlushPage { object, offset: 2 * PAGE, ppn: Ppn(0x202) },
            FsCall::Truncate { object, size: 4 * PAGE },
            FsCall::SyncFile { object },
        ]
    );
    assert!(!pc.page_marks(PageIndex::new(0)).expect("page 0").dirty);
    assert!(!pc.page_marks(PageIndex::new(2)).expect("page 2").dirty);
}

#[test]
fn pagebacked_step_fsync_retries_exact_eof_after_truncate_advances() {
    let mut pc = file_page_container(0x53);
    pc.set_size_bytes_persisted(80);
    seed_dirty_file_page(&mut pc, PageIndex::new(0));
    let object = FsObjectId::new(0x53);

    let first = step_fsync(
        &mut pc,
        &FsyncReplies { flushes: vec![done()], truncate: advancing(), sync: done() },
    );
    assert_eq!(first.outcome, StepOutcome::Continue { progress: PageProgress::new(0) });
    assert!(!pc.page_marks(PageIndex::new(0)).expect("page 0").dirty);
    assert_eq!(
        first.calls,
        vec![
            FsCall::FlushPage { object, offset: 0, ppn: Ppn(0x200) },
            FsCall::Truncate { object, size: 80 },
        ]
    );

    let second = step_fsync(&mut pc, &all_done(0));
    assert_eq!(second.outcome, StepOutcome::Done(()));
    assert_eq!(
        second.calls,
        vec![FsCall::Truncate { object, size: 80 }, FsCall::SyncFile { object }],
        "the exact EOF correction must survive after the page becomes clean"
    );
}

#[test]
fn pagebacked_step_fsync_returns_advanced_then_blocked_after_flush_progress() {
    let mut pc = file_page_container(52);
    for page in 0..2 {
        seed_dirty_file_page(&mut pc, PageIndex::new(page));
    }

    let report = step_fsync(
        &mut pc,
        &FsyncReplies {
            flushes: vec![done(), blocked(13, 0x55)],
            truncate: done(),
            sync: done(),
        },
    );
    assert_eq!(
        report.outcome,
        StepOutcome::Yield {
            progress: PageProgress::new(1),
            shape: YieldShape::OnWaitSource { source: 13, interests: 0x55 },
        }
    );

    assert!(!pc.page_marks(PageIndex::new(0)).expect("page 0").dirty);
    assert!(pc.page_marks(PageIndex::new(1)).expect("page 1").dirty);
    assert!(!report.calls.contains(&FsCall::SyncFile { object: FsObjectId::new(52) }));
}

#[test]
fn pagebacked_step_fsync_is_noop_for_anon_and_device() {
    let mut anon = anon(1);
    let mut device = device(0xface_2000);

    for pc in [&mut anon, &mut device] {
        let report = step_fsync(pc, &all_done(0));
        assert_eq!(report.outcome, StepOutcome::Done(()));
        assert_eq!(report.calls, vec![]);
    }
}

/// Clear the bytes that a truncation asks to clear.
fn clear(bytes: &mut [u8], tail: ZeroTail) {
    for byte in &mut bytes[tail.offset..tail.offset + tail.len] {
        *byte = 0;
    }
}

#[test]
fn pagebacked_step_truncate_zeros_partial_eof_tail_in_cached_page() {
    let mut pc = anon(4);
    for page in 0..4 {
        publish(&mut pc, page);
    }
    let ppn_page1 = pc.lookup(PageIndex::new(1)).expect("page 1 cached");
    let pattern: Vec<u8> = (0..USER_PAGE_SIZE).map(|i| ((i & 0xff) | 0x40) as u8).collect();
    let mut page1 = pattern.clone();

    let new_size = PAGE + 4;
    let report = truncate(&mut pc, new_size);
    assert_eq!(report.outcome, StepOutcome::Done(()));
    let tail = report.zero_tail.expect("a tail has to be cleared");
    assert_eq!(tail.ppn, ppn_page1);
    clear(&mut page1, tail);

    assert_eq!(&page1[..4], &pattern[..4]);
    assert!(page1[4..].iter().all(|byte| *byte == 0));
}

#[test]
fn pagebacked_step_truncate_does_not_touch_surviving_pages_at_page_aligned_shrink() {
    let mut pc = anon(4);
    for page in 0..4 {
        publish(&mut pc, page);
    }
    let report = truncate(&mut pc, PAGE);
    assert_eq!(report.outcome, StepOutcome::Done(()));
    assert_eq!(report.zero_tail, None);
    assert!(pc.lookup(PageIndex::new(0)).is_some());
}

#[test]
fn pagebacked_step_fallocate_grows_anon_visible_size_without_materializing_pages() {
    let mut pc = anon(4);
    assert_eq!(truncate(&mut pc, 8).outcome, StepOutcome::Done(()));
    assert_eq!(pc.size_bytes(), 8);

    assert_eq!(step_fallocate(&mut pc, 2 * PAGE + 17, &done()), StepOutcome::Done(()));

    assert_eq!(pc.size_bytes(), 2 * PAGE + 17);
    assert_eq!(pc.resident_pages(), 0);
}

#[test]
fn pagebacked_step_fallocate_calls_file_backing_before_publishing_size() {
    let mut pc = file_page_container(91);
    assert!(pc.truncate_call(16).is_some());
    assert_eq!(truncate(&mut pc, 16).outcome, StepOutcome::Done(()));

    let new_size = 3 * PAGE;
    assert_eq!(
        pc.fallocate_call(new_size),
        Some(FsCall::Fallocate { object: FsObjectId::new(91), size: new_size })
    );
    assert_eq!(pc.size_bytes(), 16);
    assert_eq!(step_fallocate(&mut pc, new_size, &done()), StepOutcome::Done(()));
    assert_eq!(pc.size_bytes(), new_size);
    assert_eq!(pc.resident_pages(), 0);
}

#[test]
fn pagebacked_step_fallocate_leaves_state_unchanged_when_file_backing_fails() {
    let mut pc = file_page_container(92);
    assert_eq!(truncate(&mut pc, 16).outcome, StepOutcome::Done(()));
    let baseline_size = pc.size_bytes();

    assert_eq!(
        step_fallocate(&mut pc, 2 * PAGE, &StepOutcome::Error(Errno::EDQUOT)),
        StepOutcome::Error(Errno::EDQUOT)
    );

    assert_eq!(pc.size_bytes(), baseline_size);
}

#[test]
fn pagebacked_step_fallocate_rejects_device_and_capacity_growth() {
    let mut device = device(0xface_3000);
    assert_eq!(
        step_fallocate(&mut device, 16, &done()),
        StepOutcome::Error(Errno::EINVAL)
    );

    let mut anon = anon(2);
    assert_eq!(
        step_fallocate(&mut anon, 3 * PAGE, &done()),
        StepOutcome::Error(Errno::EINVAL)
    );
    assert_eq!(anon.size_bytes(), 2 * PAGE);
}

#[test]
fn pagebacked_step_fallocate_is_noop_when_target_size_does_not_grow() {
    let mut pc = file_page_container(93);
    assert_eq!(truncate(&mut pc, 2 * PAGE).outcome, StepOutcome::Done(()));
    let stable_size = pc.size_bytes();

    let failing: FsReply = StepOutcome::Error(Errno::EIO);
    assert_eq!(step_fallocate(&mut pc, stable_size, &failing), StepOutcome::Done(()));
    assert_eq!(step_fallocate(&mut pc, stable_size - 1, &failing), StepOutcome::Done(()));

    assert_eq!(pc.fallocate_call(stable_size), None);
    assert_eq!(pc.fallocate_call(stable_size - 1), None);
    assert_eq!(pc.size_bytes(), stable_size);
}

#[test]
fn fsync_v3_anon_returns_done() {
    assert_eq!(step_fsync(&mut anon(1), &all_done(0)).outcome, StepOutcome::Done(()));
}

#[test]
fn fsync_v3_no_dirty_pages_done() {
    let mut pc = file_page_container(91);
    let report = step_fsync(&mut pc, &all_done(0));
    assert_eq!(report.outcome, StepOutcome::Done(()));
    assert_eq!(report.calls, vec![FsCall::SyncFile { object: FsObjectId::new(91) }]);
}

#[test]
fn fsync_v3_flushes_clean_pages_done() {
    let mut pc = file_page_container(92);
    for page in [0u64, 1, 2] {
        seed_dirty_file_page(&mut pc, PageIndex::new(page));
    }
    let report = step_fsync(&mut pc, &all_done(3));
    assert_eq!(report.outcome, StepOutcome::Done(()));
    assert_eq!(
        report.calls.iter().filter(|call| matches!(call, FsCall::FlushPage { .. })).count(),
        3
    );
    assert_eq!(
        report.calls.iter().filter(|call| matches!(call, FsCall::SyncFile { .. })).count(),
        1
    );
}

#[test]
fn fsync_v3_blocked_first_page_yields_with_empty_progress() {
    let mut pc = file_page_container(93);
    for page in [0u64, 1] {
        seed_dirty_file_page(&mut pc, PageIndex::new(page));
    }
    let replies =
        FsyncReplies { flushes: vec![blocked(13, 0x55)], truncate: done(), sync: done() };
    assert_eq!(
        step_fsync(&mut pc, &replies).outcome,
        StepOutcome::Yield {
            progress: PageProgress::new(0),
            shape: YieldShape::OnWaitSource { source: 13, interests: 0x55 },
        }
    );
    assert!(pc.page_marks(PageIndex::new(0)).expect("page 0").dirty);
}

#[test]
fn fsync_v3_blocked_after_progress_yields_with_pages_so_far() {
    let mut pc = file_page_container(94);
    for page in [0u64, 1] {
        seed_dirty_file_page(&mut pc, PageIndex::new(page));
    }
    let replies = FsyncReplies {
        flushes: vec![done(), blocked(13, 0x55)],
        truncate: done(),
        sync: done(),
    };
    let report = step_fsync(&mut pc, &replies);
    assert_eq!(
        report.outcome,
        StepOutcome::Yield {
            progress: PageProgress::new(1),
            shape: YieldShape::OnWaitSource { source: 13, interests: 0x55 },
        }
    );
    assert!(!pc.page_marks(PageIndex::new(0)).expect("page 0").dirty);
    assert!(pc.page_marks(PageIndex::new(1)).expect("page 1").dirty);
    assert!(!report.calls.iter().any(|call| matches!(call, FsCall::SyncFile { .. })));
}

#[test]
fn truncate_v3_anon_shrink_done_and_withdraws_pages() {
    let mut pc = anon(4);
    for page in 0..4 {
        publish(&mut pc, page);
    }
    assert_eq!(truncate(&mut pc, PAGE).outcome, StepOutcome::Done(()));
    assert_eq!(pc.size_bytes(), PAGE);
    assert!(pc.lookup(PageIndex::new(0)).is_some());
    for page in 1..4 {
        assert_eq!(pc.lookup(PageIndex::new(page)), None);
    }
}

#[test]
fn truncate_v3_device_returns_einval() {
    assert_eq!(
        truncate(&mut device(0xface_3000), 0).outcome,
        StepOutcome::Error(Errno::EINVAL)
    );
}

#[test]
fn truncate_v3_grow_past_capacity_returns_einval() {
    assert_eq!(truncate(&mut anon(1), 2 * PAGE).outcome, StepOutcome::Error(Errno::EINVAL));
}

#[test]
fn truncate_v3_fs_err_propagates_unchanged_state() {
    let mut pc = file_page_container(95);
    let original = pc.size_bytes();
    assert_eq!(
        step_truncate(&mut pc, PAGE, &StepOutcome::Error(Errno::EROFS), true).outcome,
        StepOutcome::Error(Errno::EROFS)
    );
    assert_eq!(pc.size_bytes(), original);
}

#[test]
fn truncate_v3_fs_blocked_yields_empty_progress() {
    let mut pc = file_page_container(96);
    let original = pc.size_bytes();
    assert_eq!(
        step_truncate(&mut pc, PAGE, &blocked(7, 0x11), true).outcome,
        StepOutcome::Yield {
            progress: PageProgress::new(0),
            shape: YieldShape::OnWaitSource { source: 7, interests: 0x11 },
        }
    );
    assert_eq!(pc.size_bytes(), original);
}

#[test]
fn truncate_v3_fs_advanced_returns_continue_with_empty_progress() {
    let mut pc = file_page_container(97);
    pc.set_size_bytes(2 * PAGE);
    assert_eq!(
        step_truncate(&mut pc, PAGE, &advancing(), true).outcome,
        StepOutcome::Continue { progress: PageProgress::new(0) }
    );
    assert_eq!(pc.size_bytes(), PAGE);
}

#[test]
fn fsync_op_anon_returns_done() {
    let mut op = FsyncOp::new();
    let report = op.step(&mut anon(1), &vec![], &vec![], &all_done(0));
    assert_eq!(report.outcome, StepOutcome::Done(()));
}

#[test]
fn truncate_op_anon_shrink_returns_done() {
    let mut pc = anon(4);
    let mut op = TruncateOp::new(PAGE);
    assert_eq!(op.step(&mut pc, &done(), true).outcome, StepOutcome::Done(()));
    assert_eq!(pc.size_bytes(), PAGE);
}

#[test]
fn fallocate_op_anon_grow_returns_done() {
    let mut pc = anon(4);
    let op = FallocateOp { new_size: PAGE };
    assert_eq!(op.step(&mut pc, &done()), StepOutcome::Done(()));
}

#[test]
fn a_wait_without_a_source_is_an_error() {
    let agent: FsReply =
        StepOutcome::Yield { progress: NoProgress, shape: YieldShape::OnAgent };
    let mut pc = file_page_container(70);
    assert_eq!(
        step_truncate(&mut pc, PAGE, &agent, true).outcome,
        StepOutcome::Error(Errno::EIO)
    );
    assert_eq!(
        step_fallocate(&mut pc, PAGE, &agent),
        StepOutcome::Done(()),
        "nothing has to grow"
    );
    seed_dirty_file_page(&mut pc, PageIndex::new(0));
    let replies = FsyncReplies { flushes: vec![agent], truncate: done(), sync: done() };
    assert_eq!(step_fsync(&mut pc, &replies).outcome, StepOutcome::Error(Errno::EIO));
}

#[test]
fn a_page_written_to_during_its_flush_stays_dirty() {
    let mut pc = file_page_container(71);
    let page = PageIndex::new(0);
    let (ppn, generation) = seed_dirty_file_page(&mut pc, page);
    let captured = pc.dirty_pages_snapshot();
    assert_eq!(captured, vec![DirtyPage { page, ppn, generation }]);
    pc.page_slots.get_mut(0).mark_dirty().expect("written again");

    pc.finish_page_flush(captured[0]);
    assert_eq!(state(&pc, page), PageSlotState::Dirty { ppn });
    assert_eq!(pc.stored_size, None);
}

#[test]
fn an_fsync_that_writes_nothing_leaves_the_stored_size_alone() {
    let mut pc = file_page_container(76);
    pc.set_size_bytes_persisted(0);
    pc.set_size_bytes(83);
    let report = step_fsync(&mut pc, &all_done(0));
    assert_eq!(report.outcome, StepOutcome::Done(()));
    assert_eq!(report.calls, vec![FsCall::SyncFile { object: FsObjectId::new(76) }]);
    assert_eq!(pc.eof_correction(), None);
    assert!(pc.size_correction().is_some());

    seed_dirty_file_page(&mut pc, PageIndex::new(0));
    let report = step_fsync(&mut pc, &all_done(1));
    assert_eq!(report.calls.len(), 3);
    assert_eq!(
        report.calls[1],
        FsCall::Truncate { object: FsObjectId::new(76), size: 83 }
    );
    assert_eq!(pc.size_correction(), None);
}

#[test]
fn close_time_flush_ignores_the_answer_to_the_size_correction() {
    let mut pc = file_page_container(75);
    pc.set_size_bytes_persisted(90);
    seed_dirty_file_page(&mut pc, PageIndex::new(0));
    let failing: FsReply = StepOutcome::Error(Errno::EIO);
    let report = pc.flush_dirty_pages_for_close_visibility(&vec![done()], &failing);
    assert_eq!(report.outcome, StepOutcome::Done(()));
    assert_eq!(report.calls.len(), 2);
    assert_eq!(pc.stored_size, None);

    let quiet = pc.flush_dirty_pages_for_close_visibility(&vec![], &done());
    assert_eq!(quiet.outcome, StepOutcome::Done(()));
    assert_eq!(quiet.calls, vec![]);
}

#[test]
fn the_first_page_after_a_size_is_rounded_up() {
    assert_eq!(first_page_after_size(0), Some(PageIndex::new(0)));
    assert_eq!(first_page_after_size(1), Some(PageIndex::new(1)));
    assert_eq!(first_page_after_size(PAGE), Some(PageIndex::new(1)));
    assert_eq!(first_page_after_size(PAGE + 1), Some(PageIndex::new(2)));
    assert_eq!(first_page_after_size(u64::MAX), None);
}

#[test]
fn an_advancing_truncate_keeps_advancing_after_backpressure() {
    let mut pc = file_page_container(76);
    publish(&mut pc, 2);
    let mut op = TruncateOp::new(PAGE);
    let report = op.step(&mut pc, &advancing(), false);
    assert!(report.pending);
    assert_eq!(op.phase, TruncatePhase::Commit { advanced: true });
    assert_eq!(
        op.step(&mut pc, &done(), true).outcome,
        StepOutcome::Continue { progress: PageProgress::new(0) }
    );
    assert_eq!(op.phase, TruncatePhase::Ask);
    assert!(op.call(&pc).is_some());
}

/// Resume an fsync until it ends. `reply` answers the calls.
fn drive_fsync(
    pc: &mut PageContainer,
    reply: impl Fn(FsCall) -> FsReply,
) -> (StepOutcome<(), PageProgress>, Vec<FsCall>) {
    let mut calls = vec![];
    let mut next = begin_fsync(pc);
    loop {
        match next {
            FsyncNext::Ended(outcome) => return (outcome, calls),
            FsyncNext::Call { call, run } => {
                calls.push(call);
                next = resume_fsync(pc, run, &reply(call));
            }
        }
    }
}

#[test]
fn an_fsync_run_makes_the_calls_of_an_fsync() {
    let mut pc = file_page_container(701);
    let mut twin = file_page_container(701);
    for pages in [&mut pc, &mut twin] {
        for page in [2u64, 0] {
            seed_dirty_file_page(pages, PageIndex::new(page));
        }
    }
    let report = step_fsync(&mut twin, &all_done(2));
    let (outcome, calls) = drive_fsync(&mut pc, |_| StepOutcome::Done(()));
    assert_eq!(outcome, StepOutcome::Done(()));
    assert_eq!(outcome, report.outcome);
    assert_eq!(calls, report.calls);
    assert_eq!(calls.len(), 4);
    assert!(pc.dirty_pages_snapshot().is_empty());
    assert_eq!(pc.size_correction(), None);
}

#[test]
fn an_fsync_run_stops_at_the_first_refusal() {
    let mut pc = file_page_container(702);
    for page in [0u64, 1, 2] {
        seed_dirty_file_page(&mut pc, PageIndex::new(page));
    }
    let (outcome, calls) = drive_fsync(&mut pc, |call| match call {
        FsCall::FlushPage { offset: 4096, .. } => StepOutcome::Error(Errno::EIO),
        _ => StepOutcome::Done(()),
    });
    assert_eq!(outcome, StepOutcome::Error(Errno::EIO));
    assert_eq!(calls.len(), 2);
    assert_eq!(pc.dirty_pages_snapshot().len(), 2);

    let (outcome, calls) = drive_fsync(&mut pc, |call| match call {
        FsCall::Truncate { .. } => StepOutcome::Continue { progress: NoProgress },
        _ => StepOutcome::Done(()),
    });
    assert_eq!(outcome, StepOutcome::Continue { progress: PageProgress::new(0) });
    assert_eq!(calls.len(), 3);
    assert!(pc.size_correction().is_some());
}

#[test]
fn a_planned_fsync_is_synced_when_its_frontier_is_written() {
    let mut pc = file_page_container(703);
    let waiting = begin_planned_fsync(&pc, Ok(FileFsyncFrontierAdvance::Waiting));
    assert!(matches!(
        waiting,
        FsyncNext::Ended(StepOutcome::Continue { progress }) if progress == PageProgress::new(0)
    ));
    let failed = begin_planned_fsync(&pc, Ok(FileFsyncFrontierAdvance::Error(Errno::EIO)));
    assert!(matches!(failed, FsyncNext::Ended(StepOutcome::Error(Errno::EIO))));
    match begin_planned_fsync(&pc, Ok(FileFsyncFrontierAdvance::Complete)) {
        FsyncNext::Call { call, run } => {
            assert_eq!(call, FsCall::SyncFile { object: FsObjectId::new(703) });
            let end = resume_fsync(&mut pc, run, &blocked(4, 1));
            assert!(matches!(end, FsyncNext::Ended(StepOutcome::Yield { .. })));
        }
        other => panic!("expected a sync, got {other:?}"),
    }
}
