use page_backed::completion::CompletionAnswers;
use page_backed::container::{
    AnonSwapPolicy, MountPin, PageContainer, PageContainerKind,
};
use page_backed::frame::{CachePin, CachedFrame};
use page_backed::fsync::FileFsyncState;
use page_backed::fsync_submission::FsyncSubmissionState;
use page_backed::ids::{
    AllocError, Errno, FsObjectId, IoDataLeaseId, PageGeneration, PageIndex, Ppn, USER_PAGE_SIZE,
};
use page_backed::io::{
    BioVec, IoDataSource, IoDataTarget, PageCompletionRoute, PageIoCompletion,
    PageIoCompletionKind, PageIoOp, PageIoRange, PageIoRequest, PageIoResult,
};
use page_backed::lifecycle::{FsCall, FsyncOp, FsyncReplies};
use page_backed::service::{ServiceDrivenWork, ServiceItem};
use page_backed::slot::PageSlotState;
use page_backed::step::{PageProgress, StepOutcome};
use page_backed::writeback::{FileFsyncFrontier, FileFsyncFrontierAdvance};

fn file(object: u64, pages: u64, planner: bool) -> PageContainer {
    PageContainer::new(
        PageContainerKind::File {
            mount: MountPin { trace_id: 3, backend_planner: planner },
            fs_object_id: FsObjectId::new(object),
        },
        pages,
    )
}

fn seed_dirty(pc: &mut PageContainer, page: PageIndex, ppn: usize) -> PageGeneration {
    let frame = CachedFrame::from_pin(CachePin { ppn: Ppn(ppn) });
    pc.install_resident_if_absent_published_with(page, frame, true, true).expect("seed page");
    pc.page_slot_snapshot(page).expect("dirty slot").generation
}

fn granted(count: usize) -> Vec<Result<(), AllocError>> {
    vec![Ok(()); count]
}

fn request_of(pc: &PageContainer, start: u64, count: u64) -> PageIoRequest {
    pc.page_submission
        .find_submission(PageIoRange::new(start, count), PageIoOp::Writeback)
        .expect("queued writeback request")
}

fn finish(pc: &mut PageContainer, request: PageIoRequest, result: PageIoResult, generation: PageGeneration) {
    let route = PageCompletionRoute {
        completion: PageIoCompletion::new(
            request.id,
            request.range,
            result,
            generation,
            PageIoCompletionKind::WritebackFinished,
        ),
        frame: None,
        has_waiters: false,
    };
    let answers = CompletionAnswers { pinned: Ok(()), retire: true };
    let driven = pc
        .drive_file_io_service_once(vec![ServiceItem::Completion { route, answers }], false, false)
        .expect("completion turn");
    assert!(matches!(driven.work[0].work, ServiceDrivenWork::Completion(_)));
}

#[test]
fn file_page_writeback_admission_transitions_dirty_slot_and_queues_request() {
    let mut pc = file(95, 4, false);
    let page = PageIndex::new(1);
    let ppn = Ppn(0x11);
    seed_dirty(&mut pc, page, 0x11);

    let id = pc.queue_file_page_writeback(page, Ok(())).expect("writeback request");
    assert_eq!(
        pc.snapshot_file_fsync_frontier().expect("file frontier").pages(),
        &vec![(page, PageGeneration::new(2))]
    );
    assert_eq!(pc.page_submission.submission_len(), 1);
    assert_eq!(
        pc.page_slot_snapshot(page).expect("slot").state,
        PageSlotState::Writeback {
            ppn,
            submitted_generation: PageGeneration::new(2),
            redirtied: false,
        }
    );
    assert!(pc.page_marks(page).expect("marks").writeback);
    assert_ne!(id.raw(), 0);
}

#[test]
fn file_close_writeback_admission_queues_dirty_pages_without_fsync() {
    let mut pc = file(96, 4, false);
    let page = PageIndex::new(1);
    let ppn = Ppn(0x12);
    seed_dirty(&mut pc, page, 0x12);

    assert_eq!(pc.queue_dirty_file_writeback(&granted(1), &granted(1)), 1);
    assert_eq!(pc.page_submission.submission_len(), 1);
    assert!(pc
        .page_submission
        .find_submission(PageIoRange::new(page.as_u64(), 1), PageIoOp::Writeback)
        .is_some());
    assert!(pc
        .page_submission
        .find_submission(PageIoRange::new(0, 4), PageIoOp::Fsync)
        .is_none());
    assert_eq!(
        pc.page_slot_snapshot(page).expect("slot").state,
        PageSlotState::Writeback {
            ppn,
            submitted_generation: PageGeneration::new(2),
            redirtied: false,
        }
    );
}

#[test]
fn file_fsync_session_waits_for_its_captured_writeback_without_duplicate_submission() {
    let mut pc = file(97, 4, false);
    let page = PageIndex::new(1);
    let generation = seed_dirty(&mut pc, page, 0x13);

    let session = pc
        .begin_file_fsync_session()
        .expect("file page container has an fsync session");
    assert_eq!(
        session.advance(&mut pc, &granted(1), &granted(1)),
        FileFsyncFrontierAdvance::Submitted { pages: 1 }
    );
    assert_eq!(pc.page_submission.submission_len(), 1);
    assert_eq!(
        session.advance(&mut pc, &granted(1), &granted(1)),
        FileFsyncFrontierAdvance::Waiting
    );
    assert_eq!(
        pc.page_submission.submission_len(),
        1,
        "a waiting fsync session must not submit its captured page twice"
    );

    let request = request_of(&pc, page.as_u64(), 1);
    let _ = pc.prepare_owned_file_io_request(&request);
    finish(&mut pc, request, PageIoResult::Done, generation);

    assert_eq!(
        session.advance(&mut pc, &granted(1), &granted(1)),
        FileFsyncFrontierAdvance::Complete
    );
}

#[test]
fn file_fsync_frontier_groups_contiguous_pages_by_generation() {
    let frontier = FileFsyncFrontier::from_pages_for_test(vec![
        (PageIndex::new(4), PageGeneration::new(9)),
        (PageIndex::new(2), PageGeneration::new(7)),
        (PageIndex::new(3), PageGeneration::new(7)),
        (PageIndex::new(5), PageGeneration::new(10)),
        (PageIndex::new(8), PageGeneration::new(10)),
    ]);

    let batches = frontier.contiguous_batches();

    assert_eq!(batches.len(), 4);
    assert_eq!(batches[0].range(), PageIoRange::new(2, 2));
    assert_eq!(batches[0].generation(), PageGeneration::new(7));
    assert_eq!(batches[1].range(), PageIoRange::new(4, 1));
    assert_eq!(batches[1].generation(), PageGeneration::new(9));
    assert_eq!(batches[2].range(), PageIoRange::new(5, 1));
    assert_eq!(batches[2].generation(), PageGeneration::new(10));
    assert_eq!(batches[3].range(), PageIoRange::new(8, 1));
    assert_eq!(batches[3].generation(), PageGeneration::new(10));
}

#[test]
fn file_fsync_session_submits_contiguous_dirty_pages_as_one_owned_batch() {
    let mut pc = file(100, 4, false);
    let ppns = [Ppn(0x14), Ppn(0x15)];
    seed_dirty(&mut pc, PageIndex::new(0), 0x14);
    seed_dirty(&mut pc, PageIndex::new(1), 0x15);
    let generation = PageGeneration::new(2);

    let session = pc
        .begin_file_fsync_session()
        .expect("file page container has an fsync session");
    assert_eq!(
        session.advance(&mut pc, &granted(2), &granted(2)),
        FileFsyncFrontierAdvance::Submitted { pages: 2 }
    );
    assert_eq!(pc.page_submission.submission_len(), 1);
    let request = request_of(&pc, 0, 2);
    let (source, target) = pc.prepare_owned_file_io_request(&request);
    assert_eq!(target, IoDataTarget::Absent);
    assert_eq!(
        source,
        IoDataSource::Direct {
            lease: IoDataLeaseId::new(request.id.raw()),
            vecs: vec![
                BioVec::new(ppns[0].0 as u64, 0, USER_PAGE_SIZE as u32),
                BioVec::new(ppns[1].0 as u64, 0, USER_PAGE_SIZE as u32),
            ],
        }
    );

    finish(&mut pc, request, PageIoResult::Done, generation);

    assert_eq!(
        session.advance(&mut pc, &granted(2), &granted(2)),
        FileFsyncFrontierAdvance::Complete
    );
    for (page, ppn) in [(PageIndex::new(0), ppns[0]), (PageIndex::new(1), ppns[1])] {
        assert_eq!(
            pc.page_slot_snapshot(page).expect("slot").state,
            PageSlotState::Resident { ppn }
        );
        let marks = pc.page_marks(page).expect("marks");
        assert!(!marks.dirty);
        assert!(!marks.writeback);
    }
    assert_eq!(pc.page_submission.submission_len(), 0);
    assert_eq!(pc.page_submission.admitted_file_request_count(), 0);
}

#[test]
fn file_fsync_session_resubmits_a_redirty_after_its_earlier_writeback_finishes() {
    let mut pc = file(98, 4, false);
    let page = PageIndex::new(1);
    let first_generation = seed_dirty(&mut pc, page, 0x16);
    pc.queue_file_page_writeback(page, Ok(())).expect("first writeback request");
    let first_request = request_of(&pc, page.as_u64(), 1);
    let frontier_generation = pc
        .page_slots
        .get_mut(page.as_u64())
        .mark_dirty()
        .expect("redirty generation")
        .generation;

    let session = pc
        .begin_file_fsync_session()
        .expect("file page container has an fsync session");
    assert_eq!(
        session.frontier().pages(),
        &vec![(page, frontier_generation)],
        "the session must include the redirty generation present at entry"
    );
    assert_eq!(
        session.advance(&mut pc, &granted(1), &granted(1)),
        FileFsyncFrontierAdvance::Waiting
    );

    let _ = pc.prepare_owned_file_io_request(&first_request);
    finish(&mut pc, first_request, PageIoResult::Done, first_generation);

    assert_eq!(
        session.advance(&mut pc, &granted(1), &granted(1)),
        FileFsyncFrontierAdvance::Submitted { pages: 1 },
        "the captured redirty must receive a second writeback"
    );
    let second_request = request_of(&pc, page.as_u64(), 1);
    let _ = pc.prepare_owned_file_io_request(&second_request);
    finish(&mut pc, second_request, PageIoResult::Done, frontier_generation);

    assert_eq!(
        session.advance(&mut pc, &granted(1), &granted(1)),
        FileFsyncFrontierAdvance::Complete
    );
}

#[test]
fn file_fsync_session_propagates_writeback_error_from_its_frontier() {
    let mut pc = file(99, 4, false);
    let page = PageIndex::new(1);
    let generation = seed_dirty(&mut pc, page, 0x17);

    let session = pc
        .begin_file_fsync_session()
        .expect("file page container has an fsync session");
    assert_eq!(
        session.advance(&mut pc, &granted(1), &granted(1)),
        FileFsyncFrontierAdvance::Submitted { pages: 1 }
    );
    let request = request_of(&pc, page.as_u64(), 1);
    let _ = pc.prepare_owned_file_io_request(&request);
    finish(&mut pc, request, PageIoResult::Failed(Errno::EIO), generation);

    assert_eq!(
        session.advance(&mut pc, &granted(1), &granted(1)),
        FileFsyncFrontierAdvance::Error(Errno::EIO)
    );
}

fn sync_done() -> FsyncReplies {
    FsyncReplies {
        flushes: vec![],
        truncate: StepOutcome::Done(()),
        sync: StepOutcome::Done(()),
    }
}

#[test]
fn fsync_op_calls_backing_after_an_empty_frontier_without_l4_fsync() {
    let mut pc = file(102, 2, true);
    let mut op = FsyncOp::new();

    let report = op.step(&mut pc, &granted(0), &granted(0), &sync_done());
    assert_eq!(report.outcome, StepOutcome::Done(()));
    assert_eq!(report.calls, vec![FsCall::SyncFile { object: FsObjectId::new(102) }]);
    assert!(pc
        .page_submission
        .find_submission(PageIoRange::new(0, 2), PageIoOp::Fsync)
        .is_none());
}

#[test]
fn fsync_op_waits_for_dirty_frontier_before_calling_backing() {
    let mut pc = file(103, 2, true);
    let page = PageIndex::new(0);
    let generation = seed_dirty(&mut pc, page, 0x18);
    let mut op = FsyncOp::new();

    let report = op.step(&mut pc, &granted(1), &granted(1), &sync_done());
    assert_eq!(report.outcome, StepOutcome::Continue { progress: PageProgress::new(0) });
    assert!(report.calls.is_empty());
    let writeback = request_of(&pc, 0, 1);
    let _ = pc.prepare_owned_file_io_request(&writeback);
    assert!(pc
        .page_submission
        .find_submission(PageIoRange::new(0, 2), PageIoOp::Fsync)
        .is_none());
    finish(&mut pc, writeback, PageIoResult::Done, generation);

    let report = op.step(&mut pc, &granted(1), &granted(1), &sync_done());
    assert_eq!(report.outcome, StepOutcome::Done(()));
    assert_eq!(report.calls, vec![FsCall::SyncFile { object: FsObjectId::new(103) }]);
    assert!(pc
        .page_submission
        .find_submission(PageIoRange::new(0, 2), PageIoOp::Fsync)
        .is_none());
}

#[test]
fn a_refused_pin_admits_no_page_of_a_run() {
    let mut pc = file(104, 4, false);
    for page in 0..3u64 {
        seed_dirty(&mut pc, PageIndex::new(page), 0x20 + page as usize);
    }
    let run = vec![PageIndex::new(0), PageIndex::new(1), PageIndex::new(2)];
    let pins = vec![Ok(()), Ok(()), Err(AllocError::Exhausted)];
    assert_eq!(pc.queue_file_writeback_batch(&run, &pins), None);
    for page in 0..3u64 {
        assert_eq!(
            pc.page_slot_snapshot(PageIndex::new(page)).expect("slot").state,
            PageSlotState::Dirty { ppn: Ppn(0x20 + page as usize) }
        );
    }
    assert_eq!(pc.page_submission.submission_len(), 0);

    // Page by page, the other two can go.
    assert_eq!(pc.queue_dirty_file_writeback(&pins, &pins), 2);
    assert_eq!(pc.page_submission.admitted_file_writeback_count(), 2);
    assert_eq!(
        pc.page_slot_snapshot(PageIndex::new(2)).expect("slot").state,
        PageSlotState::Dirty { ppn: Ppn(0x22) }
    );
}

#[test]
fn a_run_with_a_gap_is_refused() {
    let mut pc = file(105, 4, false);
    for page in [0u64, 2] {
        seed_dirty(&mut pc, PageIndex::new(page), 0x30 + page as usize);
    }
    let run = vec![PageIndex::new(0), PageIndex::new(2)];
    assert_eq!(pc.queue_file_writeback_batch(&run, &granted(2)), None);
    assert_eq!(pc.queue_file_writeback_batch(&vec![], &granted(0)), None);
    assert_eq!(pc.queue_dirty_file_writeback(&granted(2), &granted(2)), 2);
    assert_eq!(pc.page_submission.submission_len(), 2);
}

#[test]
fn only_files_are_written_back() {
    let mut pc = PageContainer::new(
        PageContainerKind::Anon { swap_policy: AnonSwapPolicy::Reclaimable },
        2,
    );
    assert_eq!(pc.queue_file_page_writeback(PageIndex::new(0), Ok(())), None);
    assert_eq!(pc.queue_dirty_file_writeback(&granted(0), &granted(0)), 0);
    assert!(pc.snapshot_file_fsync_frontier().is_none());
    assert!(pc.begin_file_fsync_session().is_none());
    assert_eq!(pc.submit_file_fsync(), None);
}

#[test]
fn a_redirtied_page_is_dirty_again_after_its_writeback() {
    let mut pc = file(106, 2, false);
    let page = PageIndex::new(0);
    let generation = seed_dirty(&mut pc, page, 0x40);
    pc.queue_file_page_writeback(page, Ok(())).expect("writeback");
    pc.page_slots.get_mut(0).mark_dirty().expect("redirty");
    let request = request_of(&pc, 0, 1);
    finish(&mut pc, request, PageIoResult::Done, generation);
    assert_eq!(
        pc.page_slot_snapshot(page).expect("slot").state,
        PageSlotState::Dirty { ppn: Ppn(0x40) }
    );
    assert!(pc.page_marks(page).expect("marks").dirty);
    assert!(!pc.page_marks(page).expect("marks").writeback);
}

#[test]
fn a_writeback_completion_counts_once() {
    let mut pc = file(107, 2, false);
    let page = PageIndex::new(0);
    let generation = seed_dirty(&mut pc, page, 0x41);
    pc.queue_file_page_writeback(page, Ok(())).expect("writeback");
    let request = request_of(&pc, 0, 1);
    finish(&mut pc, request, PageIoResult::Done, generation);
    seed_again(&mut pc, page);
    let before = pc.page_slot_snapshot(page);
    finish(&mut pc, request, PageIoResult::Done, generation);
    assert_eq!(pc.page_slot_snapshot(page), before);
}

fn seed_again(pc: &mut PageContainer, page: PageIndex) {
    pc.page_slots.get_mut(page.as_u64()).mark_dirty().expect("dirty again");
}

#[test]
fn a_backend_fsync_is_submitted_once_and_taken_once() {
    let mut pc = file(108, 2, true);
    let mut state = FileFsyncState::new();
    assert_eq!(
        state.advance(&mut pc, &granted(0), &granted(0)),
        Ok(FileFsyncFrontierAdvance::Complete)
    );
    assert!(!state.backend_finished());

    let id = pc.submit_file_fsync().expect("durability request");
    assert_eq!(pc.file_fsync_submission_state(id), Some(FsyncSubmissionState::Queued));
    assert_eq!(pc.take_file_fsync_submission(id), None);
    let completion = PageIoCompletion::new(
        id,
        PageIoRange::new(0, 2),
        PageIoResult::Failed(Errno::EIO),
        PageGeneration::new(0),
        PageIoCompletionKind::Noop,
    );
    assert!(pc.terminalize_file_fsync_submission(completion));
    assert!(!pc.terminalize_file_fsync_submission(completion));
    assert_eq!(pc.take_file_fsync_submission(id), Some(Err(Errno::EIO)));
    assert_eq!(pc.take_file_fsync_submission(id), None);
}
