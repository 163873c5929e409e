use page_backed::completion::CompletionAnswers;
use page_backed::container::{
    AnonSwapPolicy, FilePageFetch, FilePageFetchId, MaterializeAccess, MountPin, PageContainer,
    PageContainerKind,
};
use page_backed::fetch::FilePageFetchStart;
use page_backed::frame::{
    allocate_cached_frame, cached_frame_from_frame, page_cache_error_to_errno, CachePin,
    CachedFrame, Frame, MaterializedPage, PageCacheError,
};
use page_backed::ids::{
    AllocError, Errno, FsObjectId, PageGeneration, PageIndex, PageIoRequestId, Ppn, USER_PAGE_SIZE,
};
use page_backed::io::{
    IoDataTarget, PageCompletionRoute, PageIoCompletion, PageIoCompletionKind, PageIoFlags,
    PageIoOp, PageIoPriority, PageIoRange, PageIoRequest, PageIoResult, PageWaiter,
};
use page_backed::lifecycle::step_truncate;
use page_backed::materialize::PinGrants;
use page_backed::page_access::{AccessAnswers, AccessStep, AccessTurn};
use page_backed::page_cache::{PageCacheIndex, PageCacheMark};
use page_backed::reclaim::{
    reclaim_clean_file_pages, reclaim_clean_file_pages_if_low, reserve_frame_with_reclaim,
    ReclaimRegistry,
};
use page_backed::service::{
    file_service_terminal_error_for_request, file_service_work_waits_for_async_completion,
    BackendReply, BackendSubmission, ServiceItem,
};
use page_backed::block_runtime::BackendSubmitOutcome;
use page_backed::slot::PageSlotState;
use page_backed::step::{NoProgress, StepOutcome, YieldShape};

const PAGE: u64 = USER_PAGE_SIZE as u64;

fn frame(ppn: usize) -> CachedFrame {
    CachedFrame::from_pin(CachePin { ppn: Ppn(ppn) })
}

fn pins() -> PinGrants {
    PinGrants { cache: Ok(()), map: Ok(()) }
}

fn answers(ppn: usize, fresh: u64) -> AccessAnswers {
    AccessAnswers { pins: pins(), retire: true, allocated: Ok(frame(ppn)), fresh }
}

fn granted() -> CompletionAnswers {
    CompletionAnswers { pinned: Ok(()), retire: true }
}

fn anon(pages: u64) -> PageContainer {
    PageContainer::new(
        PageContainerKind::Anon { swap_policy: AnonSwapPolicy::Reclaimable },
        pages,
    )
}

fn file(object: u64, planner: bool) -> PageContainer {
    PageContainer::new(
        PageContainerKind::File {
            mount: MountPin { trace_id: 3, backend_planner: planner },
            fs_object_id: FsObjectId::new(object),
        },
        4,
    )
}

fn materialize_anon(pc: &mut PageContainer, page: PageIndex, access: MaterializeAccess, ppn: usize) -> MaterializedPage {
    pc.materialize_anon(page, access, Ok(frame(ppn)), pins(), true).expect("anonymous page")
}

fn finished(turn: AccessTurn) -> StepOutcome<MaterializedPage, NoProgress> {
    match turn.step {
        AccessStep::Finished(outcome) => outcome,
        other => panic!("access goes on: {other:?}"),
    }
}

fn done(outcome: StepOutcome<MaterializedPage, NoProgress>) -> MaterializedPage {
    match outcome {
        StepOutcome::Done(page) => page,
        other => panic!("unexpected materialize outcome: {other:?}"),
    }
}

/// Access a file page without a planner, fetching `ppn` where a fetch is asked
/// for. The call of the fetch is passed on.
fn access_file(
    pc: &mut PageContainer,
    page: PageIndex,
    access: MaterializeAccess,
    ppn: usize,
) -> (StepOutcome<MaterializedPage, NoProgress>, Option<(FsObjectId, u64)>) {
    let mut step = pc.materialize_page(page, access, answers(0, 700)).step;
    if let AccessStep::PrepareWrite { .. } = step {
        step = pc
            .resume_prepared_write(page, access, StepOutcome::Done(()), answers(0, 700))
            .step;
    }
    match step {
        AccessStep::Finished(outcome) => (outcome, None),
        AccessStep::Fetch { fetch, object, offset } => {
            let (outcome, _) = pc.resume_fetched_page(
                page,
                access,
                fetch,
                StepOutcome::Done(Frame::new(Ppn(ppn))),
                Ok(()),
                Ok(()),
                pins(),
                true,
            );
            (outcome, Some((object, offset)))
        }
        other => panic!("unexpected step: {other:?}"),
    }
}

#[test]
fn page_cache_index_install_if_absent_linearizes_sparse_offsets() {
    let mut index = PageCacheIndex::new();
    let page = PageIndex::new(7);

    assert_eq!(index.lookup(page), None);
    assert_eq!(index.install_if_absent(page, frame(0x11)), Ok(()));
    assert_eq!(
        index.install_if_absent(page, frame(0x12)),
        Err(PageCacheError::AlreadyPresent { current: Ppn(0x11) })
    );
    assert_eq!(index.lookup(page), Some(Ppn(0x11)));
    assert_eq!(index.len(), 1);
}

#[test]
fn page_cache_index_install_if_match_replaces_or_withdraws_exact_frame() {
    let mut index = PageCacheIndex::new();
    let page = PageIndex::new(3);
    let first_ppn = Ppn(0x21);
    let wrong = Ppn(0x22);
    let replacement_ppn = Ppn(0x24);

    index.install_if_absent(page, frame(0x21)).expect("initial insert");
    assert_eq!(
        index.install_if_match(page, wrong, Some(frame(0x23))),
        Err(PageCacheError::MismatchedFrame { current: first_ppn })
    );
    assert_eq!(
        index.install_if_match(page, first_ppn, Some(frame(0x24))),
        Ok(Some(first_ppn))
    );
    assert_eq!(index.lookup(page), Some(replacement_ppn));
    assert_eq!(
        index.install_if_match(page, replacement_ppn, None),
        Ok(Some(replacement_ppn))
    );
    assert_eq!(index.lookup(page), None);
}

#[test]
fn marks_are_kept_per_page() {
    let mut index = PageCacheIndex::new();
    for page in [9u64, 2, 5] {
        index.install_if_absent(PageIndex::new(page), frame(page as usize)).expect("install");
    }
    index.set_mark(PageIndex::new(5), PageCacheMark::NoReclaim).expect("mark");
    assert_eq!(
        index.set_mark(PageIndex::new(6), PageCacheMark::NoReclaim),
        Err(PageCacheError::MissingPage)
    );
    assert!(index.marked(PageCacheMark::NoReclaim));
    assert_eq!(
        index.collect_marked(PageCacheMark::NoReclaim),
        vec![(PageIndex::new(5), Ppn(5))]
    );
    assert_eq!(
        index.clean_pages(5),
        vec![(PageIndex::new(2), Ppn(2)), (PageIndex::new(9), Ppn(9))]
    );
    assert_eq!(index.clean_pages(1), vec![(PageIndex::new(2), Ppn(2))]);
    index.clear_mark(PageIndex::new(5), PageCacheMark::NoReclaim).expect("clear");
    assert!(!index.marked(PageCacheMark::NoReclaim));
    index.erase_from(PageIndex::new(5));
    assert_eq!(index.len(), 1);
    assert!(index.load(PageIndex::new(2)).is_some());
}

#[test]
fn owned_frame_handoff_releases_temporary_owner_on_cache_drop() {
    let ppn = Ppn(0x31);
    let cached = cached_frame_from_frame(Frame::from_owned(ppn), Ok(()), Ok(()))
        .expect("cache handoff");
    assert_eq!(cached.ppn, ppn);
    assert_eq!(
        cached_frame_from_frame(Frame::from_owned(ppn), Ok(()), Err(AllocError::InvalidRequest)),
        Err(PageCacheError::Alloc(AllocError::InvalidRequest))
    );
    assert_eq!(
        cached_frame_from_frame(Frame::new(ppn), Err(AllocError::Exhausted), Ok(())),
        Err(PageCacheError::Alloc(AllocError::Exhausted))
    );
}

#[test]
fn a_frame_is_cached_only_if_it_was_reserved_and_pinned() {
    assert_eq!(allocate_cached_frame(Ok(Ppn(4)), Ok(())), Ok(frame(4)));
    assert_eq!(
        allocate_cached_frame(Err(AllocError::Exhausted), Ok(())),
        Err(PageCacheError::Alloc(AllocError::Exhausted))
    );
    assert_eq!(
        allocate_cached_frame(Ok(Ppn(4)), Err(AllocError::InvalidRequest)),
        Err(PageCacheError::Alloc(AllocError::InvalidRequest))
    );
}

#[test]
fn every_cache_error_has_its_error_number() {
    let cases = [
        (PageCacheError::AlreadyPresent { current: Ppn(1) }, Errno::ESTALE),
        (PageCacheError::MissingPage, Errno::ESTALE),
        (PageCacheError::MismatchedFrame { current: Ppn(1) }, Errno::ESTALE),
        (PageCacheError::OutOfBounds, Errno::EINVAL),
        (PageCacheError::UnsupportedKind, Errno::EINVAL),
        (PageCacheError::Backend(Errno::EROFS), Errno::EROFS),
        (PageCacheError::Alloc(AllocError::Exhausted), Errno::ENOMEM),
    ];
    for (error, errno) in cases {
        assert_eq!(page_cache_error_to_errno(error), errno);
    }
}

#[test]
fn reclaim_clean_file_pages_drops_clean_cache_entries() {
    let mut pc = file(56, false);
    let page = PageIndex::new(1);
    pc.install_resident_if_absent_published(page, frame(0x41), true)
        .expect("install clean page");

    assert_eq!(pc.resident_pages(), 1);
    assert_eq!(pc.reclaim_clean_file_pages(1, &vec![true]), 1);
    assert_eq!(pc.resident_pages(), 0);
    assert!(pc.lookup_resident(page).is_none());
}

#[test]
fn reclaim_leaves_dirty_pages_and_stops_without_credit() {
    let mut pc = file(57, false);
    pc.install_resident_if_absent_published_with(PageIndex::new(0), frame(1), true, true)
        .expect("dirty page");
    for page in 1..4u64 {
        pc.install_resident_if_absent_published(
            PageIndex::new(page),
            frame(1 + page as usize),
            true,
        )
        .expect("clean page");
    }
    assert_eq!(pc.reclaim_clean_file_pages(4, &vec![true, true, false, true]), 1);
    assert!(pc.lookup(PageIndex::new(0)).is_some());
    assert_eq!(pc.lookup(PageIndex::new(1)), None);
    assert!(pc.lookup(PageIndex::new(2)).is_some());
    assert!(pc.lookup(PageIndex::new(3)).is_some());
    assert_eq!(anon(1).reclaim_clean_file_pages(4, &vec![true]), 0);
}

#[test]
fn the_reclaim_registry_spreads_its_budget_over_live_containers() {
    let mut first = file(1, false);
    let mut second = file(2, false);
    for page in 0..2u64 {
        for pc in [&mut first, &mut second] {
            pc.install_resident_if_absent_published(
                PageIndex::new(page),
                frame(9 + page as usize),
                true,
            )
            .expect("clean page");
        }
    }
    let mut registry = ReclaimRegistry::new();
    registry.containers.push(Some(first));
    registry.containers.push(None);
    registry.containers.push(Some(second));
    let credits = vec![vec![true; 4], vec![], vec![true; 4]];
    assert_eq!(reclaim_clean_file_pages_if_low(&mut registry, Ok(1025), &credits), 0);
    assert_eq!(
        reclaim_clean_file_pages_if_low(&mut registry, Err(AllocError::Unavailable), &credits),
        0
    );
    assert_eq!(registry.containers.len(), 3);
    assert_eq!(reclaim_clean_file_pages(&mut registry, 3, &credits), 3);
    assert_eq!(registry.containers.len(), 2);

    let credits = vec![vec![true; 4], vec![true; 4]];
    assert_eq!(
        reserve_frame_with_reclaim(&mut registry, Ok(Ppn(5)), Err(AllocError::Exhausted), &credits),
        Ok(Ppn(5))
    );
    assert_eq!(
        reserve_frame_with_reclaim(
            &mut registry,
            Err(AllocError::Exhausted),
            Ok(Ppn(6)),
            &credits
        ),
        Ok(Ppn(6))
    );
    for container in &registry.containers {
        assert_eq!(container.as_ref().expect("live").resident_pages(), 0);
    }
    assert_eq!(
        reserve_frame_with_reclaim(
            &mut registry,
            Err(AllocError::InvalidRequest),
            Ok(Ppn(6)),
            &credits
        ),
        Err(AllocError::InvalidRequest)
    );
}

#[test]
fn anon_page_container_materializes_once_and_tracks_dirty_writes() {
    let mut pc = anon(4);
    let page = PageIndex::new(2);

    let first = materialize_anon(&mut pc, page, MaterializeAccess::Read, 0x51);
    let second = materialize_anon(&mut pc, page, MaterializeAccess::Write, 0x52);

    assert!(first.newly_installed);
    assert!(!first.dirty);
    assert_eq!(second.ppn, first.ppn);
    assert!(!second.newly_installed);
    assert!(second.dirty);
    assert_eq!(pc.lookup(page), Some(first.ppn));
    assert_eq!(pc.resident_pages(), 1);
}

#[test]
fn anon_page_materialization_keeps_allocator_work_outside_state_lock() {
    let mut pc = anon(4);
    let page = PageIndex::new(1);

    let first = materialize_anon(&mut pc, page, MaterializeAccess::Read, 0x53);
    let second = materialize_anon(&mut pc, page, MaterializeAccess::Write, 0x54);

    assert!(first.newly_installed);
    assert_eq!(second.ppn, first.ppn);
    assert!(!second.newly_installed);
}

#[test]
fn page_container_cap_materializes_anon_pages() {
    let mut pc = anon(4);
    assert_eq!(pc.page_count(), 4);

    let first = materialize_anon(&mut pc, PageIndex::new(1), MaterializeAccess::Read, 0x55);
    let second = materialize_anon(&mut pc, PageIndex::new(1), MaterializeAccess::Write, 0x56);

    assert_eq!(first.ppn, second.ppn);
    assert!(first.newly_installed);
    assert!(!second.newly_installed);
    assert!(second.dirty);
    assert_eq!(pc.resident_pages(), 1);
}

#[test]
fn page_container_materialize_page_dispatches_anon() {
    let mut pc = anon(4);
    let turn = pc.materialize_page(PageIndex::new(1), MaterializeAccess::Write, answers(0x57, 1));
    let page = done(finished(turn));

    assert!(page.newly_installed);
    assert!(page.dirty);
    assert_eq!(pc.lookup(PageIndex::new(1)), Some(page.ppn));
}

#[test]
fn an_anonymous_page_without_memory_is_an_error() {
    let mut pc = anon(2);
    assert_eq!(
        pc.materialize_anon(
            PageIndex::new(0),
            MaterializeAccess::Read,
            Err(PageCacheError::Alloc(AllocError::Exhausted)),
            pins(),
            true,
        ),
        Err(PageCacheError::Alloc(AllocError::Exhausted))
    );
    let turn = pc.materialize_page(PageIndex::new(2), MaterializeAccess::Read, answers(1, 1));
    assert_eq!(finished(turn), StepOutcome::Error(Errno::EINVAL));
}

#[test]
fn page_container_materialize_page_wraps_device_ppns() {
    let mut pc = PageContainer::new(
        PageContainerKind::Device { base_ppn: Ppn(0xfeed_0000), page_count: 2 },
        2,
    );

    let turn = pc.materialize_page(PageIndex::new(1), MaterializeAccess::Write, answers(0, 1));
    let page = done(finished(turn));

    assert_eq!(page.ppn, Ppn(0xfeed_0001));
    assert!(page.newly_installed);
    assert!(!page.dirty);
    assert_eq!(pc.lookup(PageIndex::new(1)), Some(Ppn(0xfeed_0001)));
    let turn = pc.materialize_page(PageIndex::new(2), MaterializeAccess::Read, answers(0, 1));
    assert_eq!(finished(turn), StepOutcome::Error(Errno::EINVAL));
}

#[test]
fn page_container_materialize_page_dispatches_file_fetch_once() {
    let mut pc = file(55, false);
    let page = PageIndex::new(2);
    let (first, call) = access_file(&mut pc, page, MaterializeAccess::Read, 0x61);
    let first = done(first);
    let (second, again) = access_file(&mut pc, page, MaterializeAccess::Write, 0x62);
    let second = done(second);

    assert!(first.newly_installed);
    assert!(!first.dirty);
    assert_eq!(second.ppn, first.ppn);
    assert!(!second.newly_installed);
    assert!(second.dirty);
    assert_eq!(call, Some((FsObjectId::new(55), 2 * PAGE)));
    assert_eq!(again, None);
    assert_eq!(pc.resident_pages(), 1);
}

#[test]
fn file_page_materialization_keeps_map_pin_outside_state_lock() {
    let mut pc = file(56, false);
    let page = PageIndex::new(2);
    let first = done(access_file(&mut pc, page, MaterializeAccess::Read, 0x63).0);
    let second = done(access_file(&mut pc, page, MaterializeAccess::Write, 0x64).0);

    assert!(first.newly_installed);
    assert_eq!(second.ppn, first.ppn);
    assert!(!second.newly_installed);
}

#[test]
fn file_page_compat_write_marks_pageslot_dirty() {
    let mut pc = file(94, false);
    let page = PageIndex::new(1);
    done(access_file(&mut pc, page, MaterializeAccess::Write, 0x65).0);

    let snapshot = pc.page_slot_snapshot(page).expect("compatibility page slot");
    assert!(matches!(snapshot.state, PageSlotState::Dirty { .. }));
    assert!(pc.page_marks(page).expect("compatibility page marks").dirty);
}

/// Start an owner's fetch of page 0, and let a second access join it.
fn reentrant_miss(pc: &mut PageContainer) -> (FilePageFetchId, u64) {
    let page = PageIndex::new(0);
    let owner = match pc.materialize_page(page, MaterializeAccess::Read, answers(0, 700)).step {
        AccessStep::Fetch { fetch, .. } => fetch,
        other => panic!("expected an owner's fetch, got {other:?}"),
    };
    let turn = pc.materialize_page(page, MaterializeAccess::Read, answers(0, 701));
    match finished(turn) {
        StepOutcome::Yield { shape: YieldShape::OnWaitSource { source, interests }, .. } => {
            assert_ne!(source, 0);
            assert_eq!(interests, 0x1);
            (owner, source)
        }
        other => panic!("expected the second access to wait, got {other:?}"),
    }
}

#[test]
fn file_page_miss_joins_reentrant_inflight_without_duplicate_fetch() {
    let mut pc = file(57, false);
    let page = PageIndex::new(0);
    let (owner, source) = reentrant_miss(&mut pc);
    let (outcome, notify) = pc.resume_fetched_page(
        page,
        MaterializeAccess::Read,
        owner,
        StepOutcome::Done(Frame::new(Ppn(0x71))),
        Ok(()),
        Ok(()),
        pins(),
        true,
    );

    assert!(done(outcome).newly_installed);
    assert_eq!(notify, Some(source));
    assert_eq!(pc.resident_pages(), 1);
}

#[test]
fn file_page_miss_enters_l4_shadow_queue_before_compat_fetch() {
    let mut pc = file(60, false);
    let page = PageIndex::new(0);
    let owner = match pc.materialize_page(page, MaterializeAccess::Read, answers(0, 700)).step {
        AccessStep::Fetch { fetch, .. } => fetch,
        other => panic!("expected an owner's fetch, got {other:?}"),
    };
    assert_eq!(pc.page_submission.submission_len(), 1);
    pc.materialize_page(page, MaterializeAccess::Read, answers(0, 701));
    assert_eq!(pc.page_submission.submission_len(), 1);
    let request = pc
        .page_submission
        .find_submission(PageIoRange::new(0, 1), PageIoOp::Read)
        .expect("staged request");
    assert_eq!(pc.page_submission.waiter_count(request.id), 1);
    assert_ne!(request.generation_hint.expect("generation hint").raw(), 0);

    let (outcome, _) = pc.resume_fetched_page(
        page,
        MaterializeAccess::Read,
        owner,
        StepOutcome::Done(Frame::new(Ppn(0x72))),
        Ok(()),
        Ok(()),
        pins(),
        true,
    );
    assert!(done(outcome).newly_installed);
    assert_eq!(pc.page_submission.submission_len(), 0);
}

#[test]
fn file_page_retire_notifies_only_when_l4_route_has_waiter() {
    let mut pc = file(61, false);
    let page = PageIndex::new(0);
    let source_id = 42;
    let mut stale_legacy_fetch = FilePageFetch::new(FilePageFetchId(99));
    stale_legacy_fetch.source_id = Some(source_id);
    stale_legacy_fetch.joined = true;
    pc.file_page_waits.insert(page.as_u64(), source_id);
    pc.in_flight_file_pages.insert(page.as_u64(), stale_legacy_fetch);
    assert!(
        pc.finish_file_page_fetch_without_install(page, FilePageFetchId(99)).is_none(),
        "legacy joined/source_id alone must not bypass the L4 service route"
    );

    let request_id = pc
        .page_submission
        .submit(
            PageIoRange::new(page.as_u64(), 1),
            PageIoOp::Read,
            PageIoPriority::Demand,
            PageIoFlags::Demand,
            Some(PageGeneration::new(1)),
        )
        .expect("staged L4 request");
    pc.page_submission
        .register_waiter(request_id, PageWaiter { source_id, interests: 1 });
    let mut routed_fetch = FilePageFetch::with_l4_request(FilePageFetchId(100), Some(request_id));
    routed_fetch.source_id = Some(source_id);
    routed_fetch.joined = true;
    pc.in_flight_file_pages.insert(page.as_u64(), routed_fetch);

    assert!(
        pc.finish_file_page_fetch_without_install(page, FilePageFetchId(100)).is_some(),
        "registered L4 waiter should drive the PageBacked notifier"
    );
    assert_eq!(pc.page_submission.submission_len(), 0);
    assert_eq!(pc.page_submission.waiter_count(request_id), 0);
}

#[test]
fn file_page_miss_join_source_survives_blocked_owner_fetch() {
    let mut pc = file(58, false);
    let page = PageIndex::new(0);
    let (owner, inner_source) = reentrant_miss(&mut pc);
    let (outcome, _) = pc.resume_fetched_page(
        page,
        MaterializeAccess::Read,
        owner,
        StepOutcome::Yield {
            progress: NoProgress,
            shape: YieldShape::OnWaitSource { source: 9, interests: 0x44 },
        },
        Ok(()),
        Ok(()),
        pins(),
        true,
    );

    assert_eq!(
        outcome,
        StepOutcome::Yield {
            progress: NoProgress,
            shape: YieldShape::OnWaitSource { source: 9, interests: 0x44 },
        }
    );
    assert_eq!(pc.resident_pages(), 0);
    assert!(
        !pc.in_flight_file_pages.contains_key(0),
        "owner yield must clear the in-flight fetch slot so the next retry can become owner"
    );
    assert_eq!(
        pc.file_page_waits.get(0),
        Some(&inner_source),
        "the PageBacked retry source must survive owner yield for late waiter registration"
    );
}

#[test]
fn file_page_stale_owner_after_truncate_cannot_publish_page() {
    let mut pc = file(59, false);
    let page = PageIndex::new(0);
    let fetch_id = pc.allocate_file_fetch_id();
    let mut fetch = FilePageFetch::new(fetch_id);
    fetch.source_id = Some(11);
    fetch.joined = true;
    pc.file_page_waits.insert(0, 11);
    pc.in_flight_file_pages.insert(0, fetch);

    assert_eq!(
        step_truncate(&mut pc, 0, &StepOutcome::Done(()), true).outcome,
        StepOutcome::Done(())
    );

    let (stale, _) = pc.install_fetched_file_page_from_owner(
        page,
        MaterializeAccess::Read,
        Frame::new(Ppn(0x73)),
        Ok(()),
        Ok(()),
        pins(),
        fetch_id,
        true,
    );
    assert_eq!(stale, StepOutcome::Error(Errno::EAGAIN));
    assert_eq!(pc.resident_pages(), 0);
    assert_eq!(pc.lookup(page), None);
    assert!(
        pc.file_page_waits.contains_key(0),
        "truncate must keep the PageBacked retry source live for late waiter registration"
    );
}

#[test]
fn page_container_materialize_page_propagates_file_block() {
    let mut pc = file(77, false);
    let page = PageIndex::new(0);
    let fetch = match pc.materialize_page(page, MaterializeAccess::Read, answers(0, 700)).step {
        AccessStep::Fetch { fetch, .. } => fetch,
        other => panic!("expected a fetch, got {other:?}"),
    };
    let (outcome, _) = pc.resume_fetched_page(
        page,
        MaterializeAccess::Read,
        fetch,
        StepOutcome::Yield {
            progress: NoProgress,
            shape: YieldShape::OnWaitSource { source: 9, interests: 0x44 },
        },
        Ok(()),
        Ok(()),
        pins(),
        true,
    );
    assert_eq!(
        outcome,
        StepOutcome::Yield {
            progress: NoProgress,
            shape: YieldShape::OnWaitSource { source: 9, interests: 0x44 },
        }
    );
    assert_eq!(pc.resident_pages(), 0);
}

/// The request that the fetch of `page` has queued.
fn fetch_request(pc: &PageContainer, page: PageIndex) -> PageIoRequest {
    pc.page_submission
        .find_submission(PageIoRange::new(page.as_u64(), 1), PageIoOp::Read)
        .expect("queued read")
}

/// Access a page whose planner completes the read with `frame_for`.
fn access_planned(
    pc: &mut PageContainer,
    page: PageIndex,
    access: MaterializeAccess,
    target: usize,
    frame_for: fn(&IoDataTarget) -> Ppn,
) -> StepOutcome<MaterializedPage, NoProgress> {
    let mut step = pc.materialize_page(page, access, answers(target, 700)).step;
    if let AccessStep::PrepareWrite { .. } = step {
        step = pc
            .resume_prepared_write(page, access, StepOutcome::Done(()), answers(target, 700))
            .step;
    }
    let fetch = match step {
        AccessStep::Drive { fetch } => fetch,
        other => panic!("expected the planner to be driven, got {other:?}"),
    };
    let request = fetch_request(pc, page);
    let (_, io_target) = pc.prepare_owned_file_io_request(&request);
    let route = PageCompletionRoute {
        completion: PageIoCompletion::new(
            request.id,
            request.range,
            PageIoResult::Done,
            request.generation_hint.expect("read generation"),
            PageIoCompletionKind::ReadInstalled,
        ),
        frame: Some(frame_for(&io_target)),
        has_waiters: false,
    };
    let items = vec![
        ServiceItem::Submission {
            request,
            reply: BackendReply::Planned {
                graph: false,
                submission: BackendSubmission::Settled(Ok(
                    BackendSubmitOutcome::QueuedPageCompletions { queued: 1, wake: true },
                )),
            },
            answers: granted(),
        },
        ServiceItem::Completion { route, answers: granted() },
    ];
    let driven = pc.drive_file_io_service_once_owned(items, false, false).expect("service turn");
    let failed = file_service_terminal_error_for_request(&driven.work, Some(request.id));
    let waits = file_service_work_waits_for_async_completion(&driven.work);
    let turn = pc.resume_driven_fetch(
        page, access, fetch, failed, waits, pins(), 701,
    );
    finished(turn)
}

#[test]
fn file_page_materialize_uses_frame_planner_before_compat_fetch() {
    let mut pc = file(92, true);
    let outcome =
        access_planned(&mut pc, PageIndex::new(1), MaterializeAccess::Read, 0x81, |_| Ppn(0x5));
    assert_eq!(done(outcome).ppn, Ppn(0x5));
    assert!(!pc.in_flight_file_pages.contains_key(1));
}

#[test]
fn file_page_planner_reads_into_l4_leased_target_and_releases_it_on_install() {
    let mut pc = file(100, true);
    let outcome = access_planned(
        &mut pc,
        PageIndex::new(1),
        MaterializeAccess::Read,
        0x82,
        |target| match target {
            IoDataTarget::PageCache { frame, .. } => *frame,
            other => panic!("expected page-cache target, got {other:?}"),
        },
    );
    assert_eq!(done(outcome).ppn, Ppn(0x82));
    assert_eq!(pc.page_submission.admitted_file_read_count(), 0);
}

#[test]
fn file_page_read_target_mismatch_releases_owner_and_installs_completion_frame() {
    let mut pc = file(109, true);
    let page = PageIndex::new(1);
    let completion_ppn = Ppn(0x84);
    let outcome = access_planned(&mut pc, page, MaterializeAccess::Read, 0x83, |target| {
        assert!(matches!(target, IoDataTarget::PageCache { .. }));
        Ppn(0x84)
    });

    assert_eq!(done(outcome).ppn, completion_ppn);
    assert_eq!(pc.page_submission.admitted_file_request_count(), 0);
    assert_eq!(pc.page_submission.admitted_file_read_count(), 0);
    assert_eq!(pc.lookup(page), Some(completion_ppn));
}

#[test]
fn file_page_planned_write_marks_pageslot_dirty() {
    let mut pc = file(93, true);
    let page = PageIndex::new(1);
    let outcome = access_planned(&mut pc, page, MaterializeAccess::Write, 0x85, |_| Ppn(0x5));
    assert_eq!(done(outcome).ppn, Ppn(0x5));

    let snapshot = pc.page_slot_snapshot(page).expect("planned page slot");
    assert_eq!(snapshot.state, PageSlotState::Dirty { ppn: Ppn(0x5) });
    assert!(pc.page_marks(page).expect("planned page marks").dirty);
}

#[test]
fn a_fetch_can_be_joined_or_owned_but_not_both() {
    let mut pc = file(62, false);
    let page = PageIndex::new(3);
    let first = pc.begin_file_page_fetch(page, MaterializeAccess::Read, None, pins(), 31);
    let FilePageFetchStart::Owner(id) = first else { panic!("first access owns the fetch") };
    let second = pc.begin_file_page_fetch(page, MaterializeAccess::Read, None, pins(), 32);
    assert!(matches!(second, FilePageFetchStart::Joined(32)));
    let third = pc.begin_file_page_fetch(page, MaterializeAccess::Read, None, pins(), 33);
    assert!(matches!(third, FilePageFetchStart::Joined(32)));

    assert_eq!(pc.finish_file_page_fetch_without_install(page, FilePageFetchId(777)), None);
    assert_eq!(pc.finish_file_page_fetch_without_install(page, id), Some(32));
    assert_eq!(pc.finish_file_page_fetch_without_install(page, id), None);
    assert_eq!(pc.page_slot_snapshot(page).expect("slot").state, PageSlotState::Empty);
    assert_eq!(pc.page_submission.file_request(PageIoRequestId::new(1)), None);
}

#[test]
fn a_busy_direct_transfer_refuses_buffered_access_before_anything_else() {
    let mut pc = file(63, false);
    let page = PageIndex::new(1);
    pc.install_resident_if_absent_published(page, frame(0x91), true).expect("clean page");
    let token = pc
        .begin_file_direct_write(page_backed::range::PageRange::new(page, 1))
        .expect("direct write");
    let turn = pc.materialize_page(page, MaterializeAccess::Read, answers(0, 1));
    assert_eq!(finished(turn), StepOutcome::Error(Errno::EBUSY));
    pc.complete_file_direct_write(token, Err(Errno::EIO), true).expect_err("device error");
    let turn = pc.materialize_page(page, MaterializeAccess::Read, answers(0, 1));
    assert_eq!(done(finished(turn)).ppn, Ppn(0x91));
}
