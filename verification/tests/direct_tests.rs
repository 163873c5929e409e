use page_backed::backend::BackendPlan;
use page_backed::block_runtime::{
    BioPlan, BlockDeviceCompletion, BlockOp, BlockServiceNext, BlockTag, LbaRange,
};
use page_backed::container::{
    AnonSwapPolicy, MaterializeAccess, MountPin, PageContainer, PageContainerKind,
};
use page_backed::direct_io::{
    DirectIoAdmissionError, DirectIoBuffer, DirectIoBufferError, DirectIoBusy, DirectIoCompletion,
    DirectIoCompletionError, DirectIoOperation, DirectIoSubmission, DirectIoSubmissionError,
    UserAccessKind, UserPageSnapshot,
};
use page_backed::frame::{CachePin, CachedFrame};
use page_backed::ids::{AllocError, Errno, FsObjectId, IoDataLeaseId, PageIndex, Ppn, USER_PAGE_SIZE};
use page_backed::io::{BioVec, IoDataSource, IoDataTarget};
use page_backed::materialize::PinGrants;
use page_backed::page_access::{AccessAnswers, AccessStep};
use page_backed::range::{PageRange, RangeReservationKind};
use page_backed::service::{DeviceEvent, PreparedRoutes};
use page_backed::slot::{PageSlotSnapshot, PageSlotState};
use page_backed::step::StepOutcome;

fn file(object: u64, planner: bool) -> PageContainer {
    PageContainer::new(
        PageContainerKind::File {
            mount: MountPin { trace_id: 3, backend_planner: planner },
            fs_object_id: FsObjectId::new(object),
        },
        4,
    )
}

fn seed(pc: &mut PageContainer, page: PageIndex, ppn: usize, dirty: bool) {
    let frame = CachedFrame::from_pin(CachePin { ppn: Ppn(ppn) });
    pc.install_resident_if_absent_published_with(page, frame, dirty, true)
        .expect("install cached page");
}

fn access(pc: &mut PageContainer, page: PageIndex, access: MaterializeAccess) -> Option<Errno> {
    let answers = AccessAnswers {
        pins: PinGrants { cache: Ok(()), map: Ok(()) },
        retire: true,
        allocated: Ok(CachedFrame::from_pin(CachePin { ppn: Ppn(0x99) })),
        fresh: 700,
    };
    match pc.materialize_page(page, access, answers).step {
        AccessStep::Finished(StepOutcome::Error(errno)) => Some(errno),
        _ => None,
    }
}

fn user_pages(first: usize, count: usize) -> Vec<UserPageSnapshot> {
    (first..first + count)
        .map(|ppn| UserPageSnapshot { ppn: Ppn(ppn), readable: true, writable: true })
        .collect()
}

fn pin_page(addr: usize, access: UserAccessKind, ticket: u64) -> DirectIoBuffer {
    DirectIoBuffer::pin(addr, USER_PAGE_SIZE, access, &user_pages(0x200, 1), &vec![Ok(())], ticket)
        .expect("pin direct buffer")
}

#[test]
fn direct_io_buffer_rejects_unpublished_user_pages() {
    let result = DirectIoBuffer::pin(0x10_080, 5000, UserAccessKind::Read, &vec![], &vec![], 1);
    assert!(matches!(result, Err(DirectIoBufferError::NotMaterialized)));
}

#[test]
fn direct_io_buffer_builds_cross_page_biovecs_after_eager_access() {
    let buffer = DirectIoBuffer::pin(
        0x10_080,
        5000,
        UserAccessKind::Read,
        &user_pages(0x300, 2),
        &vec![Ok(()), Ok(())],
        7,
    )
    .expect("published user pages can be pinned");
    assert_eq!(buffer.vecs().len(), 2);
    assert_eq!(buffer.vecs()[0].offset, 128);
    assert_eq!(buffer.vecs()[0].len, 3968);
    assert_eq!(buffer.vecs()[1].offset, 0);
    assert_eq!(buffer.vecs()[1].len, 1032);
    assert_eq!(buffer.len(), 5000);
    assert_eq!(buffer.pin_count(), 2);
    assert_eq!(buffer.as_source().lease(), Some(buffer.lease_id()));
    assert_eq!(buffer.as_target().lease(), Some(buffer.lease_id()));
    let IoDataSource::Direct { vecs, .. } = buffer.as_source() else {
        panic!("direct buffer must produce a direct source");
    };
    assert_eq!(&vecs, buffer.vecs());
}

#[test]
fn a_buffer_is_refused_for_its_first_reason() {
    let pin = |addr: usize, len: usize, access, pages: Vec<UserPageSnapshot>, dma| {
        DirectIoBuffer::pin(addr, len, access, &pages, &dma, 0).err()
    };
    assert_eq!(
        pin(0x1000, 0, UserAccessKind::Read, vec![], vec![]),
        Some(DirectIoBufferError::InvalidRange)
    );
    assert_eq!(
        pin(0, 4096, UserAccessKind::Read, user_pages(1, 1), vec![Ok(())]),
        Some(DirectIoBufferError::InvalidRange)
    );
    assert_eq!(
        pin(usize::MAX - 10, 4096, UserAccessKind::Read, vec![], vec![]),
        Some(DirectIoBufferError::InvalidRange)
    );
    let mut pages = user_pages(1, 2);
    pages[1].writable = false;
    assert_eq!(
        pin(0x1000, 8192, UserAccessKind::Write, pages.clone(), vec![Ok(()), Ok(())]),
        Some(DirectIoBufferError::PermissionDenied)
    );
    assert_eq!(pin(0x1000, 8192, UserAccessKind::Read, pages.clone(), vec![Ok(()), Ok(())]), None);
    assert_eq!(
        pin(
            0x1000,
            8192,
            UserAccessKind::Read,
            pages,
            vec![Ok(()), Err(AllocError::Exhausted)]
        ),
        Some(DirectIoBufferError::DmaPin(AllocError::Exhausted))
    );
    // No buffer gets lease 0.
    assert_eq!(pin_page(0x1000, UserAccessKind::Read, 0).lease_id(), IoDataLeaseId::new(1));
    assert_eq!(pin_page(0x1000, UserAccessKind::Read, 9).lease_id(), IoDataLeaseId::new(9));
}

#[test]
fn file_direct_write_blocks_buffered_materialization_and_invalidates_clean_cache() {
    let mut pc = file(102, false);
    let page = PageIndex::new(1);
    seed(&mut pc, page, 0x11, false);

    let reservation = pc
        .begin_file_direct_write(PageRange::new(page, 1))
        .expect("clean range can enter direct write");
    assert_eq!(access(&mut pc, page, MaterializeAccess::Read), Some(Errno::EBUSY));

    assert_eq!(
        pc.complete_file_direct_write(reservation, Ok(()), true)
            .expect("successful direct write completion"),
        1
    );
    assert_eq!(pc.lookup(page), None);
    assert!(matches!(
        pc.page_slot_snapshot(page),
        Some(PageSlotSnapshot { state: PageSlotState::Empty, .. })
    ));
}

#[test]
fn file_direct_write_rejects_dirty_cache_and_releases_after_backend_error() {
    let mut pc = file(103, false);
    let dirty_page = PageIndex::new(1);
    seed(&mut pc, dirty_page, 0x12, true);

    assert_eq!(
        pc.begin_file_direct_write(PageRange::new(dirty_page, 1)),
        Err(DirectIoAdmissionError::Busy { page: dirty_page, state: DirectIoBusy::Dirty })
    );

    let clean_range = PageRange::new(PageIndex::new(2), 1);
    let reservation = pc.begin_file_direct_write(clean_range).expect("clean range can reserve");
    assert_eq!(
        pc.complete_file_direct_write(reservation, Err(Errno::EIO), true),
        Err(DirectIoCompletionError::Backend(Errno::EIO))
    );
    pc.begin_file_direct_write(clean_range)
        .expect("failed direct I/O must release its range reservation");
}

#[test]
fn file_direct_read_blocks_buffered_access_but_preserves_clean_cache() {
    let mut pc = file(104, false);
    let page = PageIndex::new(1);
    let ppn = Ppn(0x13);
    seed(&mut pc, page, 0x13, false);

    let reservation = pc
        .begin_file_direct_read(PageRange::new(page, 1))
        .expect("clean range can enter direct read");
    assert_eq!(access(&mut pc, page, MaterializeAccess::Write), Some(Errno::EBUSY));
    pc.complete_file_direct_read(reservation, Ok(()))
        .expect("successful direct read completion");

    assert_eq!(pc.lookup(page), Some(ppn));
    assert!(matches!(
        pc.page_slot_snapshot(page),
        Some(PageSlotSnapshot { state: PageSlotState::Resident { ppn: resident }, .. })
            if resident == ppn
    ));
}

#[test]
fn file_direct_submission_holds_dma_lease_until_terminal_completion() {
    let mut pc = file(105, false);
    let buffer = pin_page(0x20_000, UserAccessKind::Write, 21);
    let lease = buffer.lease_id();
    let page_range = PageRange::new(PageIndex::new(1), 1);

    let submission = pc.submit_file_direct_read(page_range, buffer).expect("submit direct read");
    assert_eq!(submission.lease_id(), lease);
    assert_eq!(pc.direct_io_in_flight.len(), 1);
    assert!(matches!(
        submission.target(),
        Some(IoDataTarget::Direct { lease: found, .. }) if *found == lease
    ));

    pc.complete_file_direct_submission(lease, Ok(()), true)
        .completion
        .expect("terminal direct-read completion");
    assert_eq!(pc.direct_io_in_flight.len(), 0);
    assert_eq!(pc.direct_io_completed.len(), 0);
    let reread = pc
        .begin_file_direct_read(page_range)
        .expect("terminal completion releases direct range");
    pc.complete_file_direct_read(reread, Ok(()))
        .expect("release direct-read verification reservation");

    seed(&mut pc, page_range.start(), 0x14, false);
    let write_buffer = pin_page(0x20_000, UserAccessKind::Read, 22);
    let write_lease = write_buffer.lease_id();
    let write_submission = pc
        .submit_file_direct_write(page_range, write_buffer, true)
        .expect("submit direct write");
    assert!(matches!(
        write_submission.source(),
        Some(IoDataSource::Direct { lease: found, .. }) if *found == write_lease
    ));
    assert_eq!(
        pc.complete_file_direct_submission(write_lease, Ok(()), true).completion,
        Ok(DirectIoCompletion::Write { invalidated: 1 })
    );
    assert_eq!(pc.direct_io_completed.len(), 0);
    assert_eq!(pc.lookup(page_range.start()), None);
    assert_eq!(
        pc.complete_file_direct_submission(write_lease, Ok(()), true).completion,
        Err(DirectIoCompletionError::UnknownLease(write_lease))
    );
}

#[test]
fn file_waitable_direct_submission_stores_result_and_notifies() {
    let mut pc = file(107, false);
    let buffer = pin_page(0x40_000, UserAccessKind::Write, 31);
    let range = PageRange::new(PageIndex::new(1), 1);
    let submission = pc
        .submit_file_direct_read_waitable(range, buffer, 77)
        .expect("submit waitable direct read");

    assert!(pc.take_file_direct_submission_result(&submission).is_none());
    assert_eq!(pc.direct_io_completed.len(), 0);
    let end = pc.complete_file_direct_submission(submission.lease_id(), Ok(()), true);
    assert_eq!(end.completion, Ok(DirectIoCompletion::Read));
    assert_eq!(end.notify, Some(submission.wait_source_id()));
    assert_eq!(pc.direct_io_completed.len(), 1);
    assert_eq!(
        pc.take_file_direct_submission_result(&submission),
        Some(Ok(DirectIoCompletion::Read))
    );
    assert_eq!(pc.direct_io_completed.len(), 0);
    assert!(pc.take_file_direct_submission_result(&submission).is_none());

    let failed_buffer = pin_page(0x40_000, UserAccessKind::Write, 32);
    let failed_submission = pc
        .submit_file_direct_read_waitable(range, failed_buffer, 78)
        .expect("submit waitable direct read that fails");
    assert_eq!(
        pc.complete_file_direct_submission(failed_submission.lease_id(), Err(Errno::EIO), true)
            .completion,
        Err(DirectIoCompletionError::Backend(Errno::EIO))
    );
    assert_eq!(
        pc.take_file_direct_submission_result(&failed_submission),
        Some(Err(DirectIoCompletionError::Backend(Errno::EIO)))
    );
}

fn direct_plan(submission: &DirectIoSubmission) -> BackendPlan {
    let vecs: Vec<BioVec> = match submission.target() {
        Some(IoDataTarget::Direct { vecs, .. }) => vecs.to_vec(),
        other => panic!("direct read must keep direct target, got {other:?}"),
    };
    BackendPlan::SubmitBios(vec![BioPlan {
        device: 41,
        op: BlockOp::Read,
        range: LbaRange { start: 128, count: 8 },
        vecs,
    }])
}

#[test]
fn file_direct_submission_routes_mapped_bio_through_owned_l6_completion() {
    let mut pc = file(106, true);
    let buffer = pin_page(0x30_000, UserAccessKind::Write, 41);
    let lease = buffer.lease_id();
    let range = PageRange::new(PageIndex::new(1), 1);
    let submission = pc.submit_file_direct_read(range, buffer).expect("admit direct read");

    let enqueued = pc.enqueue_file_direct_submission(&submission, Some(direct_plan(&submission)), None);
    enqueued.result.expect("plan and enqueue mapped direct bio");
    assert!(enqueued.kick_block);
    assert_eq!(pc.block_submission.queue_len(), 1);
    assert_eq!(pc.block_submission.direct_tracker_len(), 1);
    assert_eq!(pc.direct_io_in_flight.len(), 1);

    let turn = pc
        .drive_file_block_io_service_once(
            1,
            &vec![],
            0,
            vec![completed(BlockTag(1), vec![true])],
            &vec![true],
        )
        .expect("owned L6 direct completion");
    assert_eq!(turn.dispatched, 1);
    assert_eq!(turn.device_completions, 1);
    assert_eq!(turn.page_completions, 0);
    assert_eq!(pc.block_submission.direct_tracker_len(), 0);
    assert_eq!(pc.direct_io_in_flight.len(), 0);
    let reread = pc
        .begin_file_direct_read(range)
        .expect("terminal direct completion releases range reservation");
    pc.complete_file_direct_read(reread, Ok(()))
        .expect("release direct-read verification reservation");
    assert_eq!(submission.lease_id(), lease);
}

fn completed(tag: BlockTag, retires: Vec<bool>) -> DeviceEvent {
    DeviceEvent {
        completion: BlockDeviceCompletion { tag, result: Ok(()) },
        routes: Some(PreparedRoutes { queued: 0, wake: false, actions: vec![] }),
        retires,
    }
}

#[test]
fn a_direct_write_waits_for_a_root_credit() {
    let mut pc = file(108, true);
    let page = PageIndex::new(1);
    seed(&mut pc, page, 0x15, false);
    let buffer = pin_page(0x50_000, UserAccessKind::Read, 51);
    let lease = buffer.lease_id();
    let range = PageRange::new(page, 1);
    let waitable = pc
        .submit_file_direct_write_waitable(range, buffer, 90, true)
        .expect("submit direct write");
    let plan = BackendPlan::SubmitBios(vec![BioPlan {
        device: 41,
        op: BlockOp::Write,
        range: LbaRange { start: 128, count: 8 },
        vecs: vec![BioVec::new(1, 0, 4096)],
    }]);
    pc.enqueue_file_direct_submission(&waitable.submission, Some(plan), None).result.expect("queued");

    let turn = pc
        .drive_file_block_io_service_once(
            1,
            &vec![],
            0,
            vec![completed(BlockTag(1), vec![false])],
            &vec![true],
        )
        .expect("the transfer waits");
    assert_eq!(turn.next, BlockServiceNext::Runnable);
    assert_eq!(turn.kicks, 1);
    assert!(pc.direct_io_completion_is_pending(lease));
    assert_eq!(pc.pending_direct_leases(), vec![51]);
    assert_eq!(pc.lookup(page), Some(Ppn(0x15)));
    assert_eq!(access(&mut pc, page, MaterializeAccess::Read), Some(Errno::EBUSY));

    let (turn, _) = pc.begin_file_block_io_turn(1, &vec![true], 0).expect("retried");
    assert!(!turn.pending_direct);
    assert_eq!(turn.notify, vec![90]);
    assert!(!pc.direct_io_completion_is_pending(lease));
    assert_eq!(pc.lookup(page), None);
    assert_eq!(
        pc.take_file_direct_submission_result(&waitable),
        Some(Ok(DirectIoCompletion::Write { invalidated: 1 }))
    );
}

#[test]
fn a_plan_that_cannot_be_queued_gives_the_lease_back() {
    let cases: Vec<(Option<BackendPlan>, DirectIoSubmissionError, Errno)> = vec![
        (None, DirectIoSubmissionError::MissingBackendPlanner, Errno::ENOSYS),
        (
            Some(BackendPlan::Failed(Errno::EIO)),
            DirectIoSubmissionError::Backend(Errno::EIO),
            Errno::EIO,
        ),
        (
            Some(BackendPlan::Yield),
            DirectIoSubmissionError::UnsupportedBackendPlan,
            Errno::ENOSYS,
        ),
        (
            Some(BackendPlan::SubmitBios(vec![])),
            DirectIoSubmissionError::UnsupportedBackendPlan,
            Errno::ENOSYS,
        ),
        (
            Some(BackendPlan::SubmitBios(vec![BioPlan {
                device: 1,
                op: BlockOp::Read,
                range: LbaRange { start: 0, count: 0 },
                vecs: vec![],
            }])),
            DirectIoSubmissionError::Queue(Errno::EINVAL),
            Errno::EINVAL,
        ),
    ];
    let range = PageRange::new(PageIndex::new(1), 1);
    for (plan, error, errno) in cases {
        let mut pc = file(109, true);
        let waitable = pc
            .submit_file_direct_read_waitable(range, pin_page(0x1000, UserAccessKind::Write, 61), 5)
            .expect("admitted");
        let enqueued = pc.enqueue_file_direct_submission(&waitable.submission, plan, None);
        assert_eq!(enqueued.result, Err(error));
        assert_eq!(enqueued.notify, Some(5));
        assert!(!enqueued.kick_block);
        assert_eq!(pc.direct_io_in_flight.len(), 0);
        assert_eq!(
            pc.take_file_direct_submission_result(&waitable),
            Some(Err(DirectIoCompletionError::Backend(errno)))
        );
        pc.begin_file_direct_write(range).expect("the range is free again");
    }
}

#[test]
fn a_lease_is_planned_once_and_for_its_operation() {
    let mut pc = file(110, true);
    let range = PageRange::new(PageIndex::new(1), 1);
    let submission = pc
        .submit_file_direct_read(range, pin_page(0x1000, UserAccessKind::Write, 71))
        .expect("admitted");
    let mut other = DirectIoSubmission::write(range, &pin_page(0x1000, UserAccessKind::Read, 71));
    assert_eq!(
        pc.enqueue_file_direct_submission(&other, None, None).result,
        Err(DirectIoSubmissionError::OperationMismatch)
    );
    let plan = direct_plan(&submission);
    pc.enqueue_file_direct_submission(&submission, Some(plan), None).result.expect("queued");
    let plan = direct_plan(&submission);
    assert_eq!(
        pc.enqueue_file_direct_submission(&submission, Some(plan), None).result,
        Err(DirectIoSubmissionError::Busy(IoDataLeaseId::new(71)))
    );
    other = DirectIoSubmission::read(range, &pin_page(0x1000, UserAccessKind::Write, 72));
    assert_eq!(other.operation(), DirectIoOperation::Read);
    assert_eq!(
        pc.enqueue_file_direct_submission(&other, None, None).result,
        Err(DirectIoSubmissionError::UnknownLease(IoDataLeaseId::new(72)))
    );
}

#[test]
fn direct_transfers_need_a_free_range_inside_a_file() {
    let mut pc = file(111, false);
    let range = PageRange::new(PageIndex::new(1), 2);
    let first = pc.begin_file_direct_read(range).expect("first reader");
    assert!(pc.begin_file_direct_read(range).is_ok(), "readers share a range");
    assert!(matches!(
        pc.begin_file_direct_write(range),
        Err(DirectIoAdmissionError::Range(_))
    ));
    assert_eq!(
        pc.complete_file_direct_write(first, Ok(()), true),
        Err(DirectIoCompletionError::WrongReservationKind {
            expected: RangeReservationKind::DirectWrite,
            actual: RangeReservationKind::DirectRead,
        })
    );
    assert!(pc.begin_file_direct_read(PageRange::new(PageIndex::new(3), 2)).is_err());
    assert!(pc.begin_file_direct_read(PageRange::new(PageIndex::new(3), 0)).is_err());

    pc.complete_file_direct_read(first, Ok(())).expect("done");
    assert_eq!(
        pc.complete_file_direct_read(first, Ok(())),
        Err(DirectIoCompletionError::UnknownReservation(first.id()))
    );
    let mut anon = PageContainer::new(
        PageContainerKind::Anon { swap_policy: AnonSwapPolicy::Reclaimable },
        2,
    );
    assert!(anon.begin_file_direct_read(PageRange::new(PageIndex::new(0), 1)).is_err());
}
