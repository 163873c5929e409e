use page_backed::container::{MountPin, PageContainer, PageContainerKind};
use page_backed::error_seq::{ErrorCursor, ErrorSeq};
use page_backed::frame::{CachePin, CachedFrame, Frame, PageCacheError, PageLease};
use page_backed::fs_page_backing::{after_flush, FsPageBacking};
use page_backed::identity::{FileCap, FileIdentities};
use page_backed::ids::{
    AllocError, Errno, FsObjectId, IoDataLeaseId, PageGeneration, PageIndex, PageIoRequestId, Ppn,
};
use page_backed::io::{
    BioVec, IoDataSource, IoDataTarget, PageIoFlags, PageIoOp, PageIoPriority, PageIoRange,
    PageIoRequest, PageWaiter,
};
use page_backed::lease::{OwnedFileIoRequest, PageDataLease, PageDataLeaseError};
use page_backed::lifecycle::FsReply;
use page_backed::page_submission::PageSubmission;
use page_backed::sparse_index::SparseMap;
use page_backed::step::{NoProgress, StepOutcome};
use std::cell::RefCell;

fn mount(trace_id: u64) -> MountPin {
    MountPin { trace_id, backend_planner: false }
}

#[test]
fn a_file_has_as_many_pages_as_its_bytes_take() {
    let pc = PageContainer::new_file_cap(mount(1), FsObjectId::new(7), 4097);
    assert_eq!(pc.page_count(), 2);
    assert_eq!(pc.size_bytes(), 4097);
    assert!(matches!(
        pc.kind(),
        PageContainerKind::File { fs_object_id, .. } if fs_object_id == FsObjectId::new(7)
    ));
    let pc = PageContainer::new_file_cap_with_page_count(mount(1), FsObjectId::new(7), 10, 9);
    assert_eq!(pc.page_count(), 9);
    assert_eq!(pc.size_bytes(), 10);
}

#[test]
fn an_object_has_one_container_at_a_time() {
    let mut identities = FileIdentities::new();
    let first = identities.find_or_create_file_cap(
        mount(1),
        FsObjectId::new(7),
        4096,
        3,
        &vec![],
        Some(11),
    );
    let FileCap::Created { key: 11, container } = first else { panic!("a new container") };
    assert_eq!(container.page_count(), 3);

    let again = identities.find_or_create_file_cap(
        mount(1),
        FsObjectId::new(7),
        1,
        1,
        &vec![true],
        Some(12),
    );
    assert!(matches!(again, FileCap::Existing(11)));
    let elsewhere = identities.find_or_create_file_cap(
        mount(2),
        FsObjectId::new(7),
        1,
        1,
        &vec![true],
        Some(13),
    );
    assert!(matches!(elsewhere, FileCap::Created { key: 13, .. }));
    let refused = identities.find_or_create_file_cap(
        mount(3),
        FsObjectId::new(7),
        1,
        1,
        &vec![true, true],
        None,
    );
    assert!(matches!(refused, FileCap::Refused));

    // A container that is gone is replaced.
    let replaced = identities.find_or_create_file_cap(
        mount(1),
        FsObjectId::new(7),
        1,
        1,
        &vec![false, true],
        Some(14),
    );
    assert!(matches!(replaced, FileCap::Created { key: 14, .. }));
    assert_eq!(identities.entries.len(), 2);
}

#[test]
fn only_the_current_container_is_retired() {
    let mut identities = FileIdentities::new();
    let object = FsObjectId::new(7);
    identities.find_or_create_file_cap(mount(1), object, 1, 1, &vec![], Some(11));
    assert!(!identities.retire_file_identity(mount(2), object, 11, true));
    assert!(!identities.retire_file_identity(mount(1), object, 12, true));
    assert_eq!(identities.entries.len(), 1);
    assert!(identities.retire_file_identity(mount(1), object, 11, true));
    assert!(identities.entries.is_empty());
    identities.find_or_create_file_cap(mount(1), object, 1, 1, &vec![], Some(13));
    assert!(!identities.retire_file_identity(mount(1), object, 12, false));
    assert!(identities.entries.is_empty());
}

#[test]
fn an_error_is_reported_once_to_every_observer() {
    let mut seq = ErrorSeq::new();
    let mut early = ErrorCursor::new();
    assert_eq!(seq.observe(&mut early), None);
    seq.record(Errno::EIO);
    let mut late = seq.snapshot_cursor();
    assert_eq!(seq.observe(&mut late), None);
    assert_eq!(seq.observe(&mut early), Some(Errno::EIO));
    assert_eq!(seq.observe(&mut early), None);
    seq.record(Errno::EDQUOT);
    assert_eq!(seq.current(), 2);
    assert_eq!(seq.observe(&mut late), Some(Errno::EDQUOT));
    assert_eq!(early.observed(), 1);
}

/// A filesystem that writes every page but those from `limit` on.
struct Store {
    limit: u64,
    flushed: RefCell<Vec<(u64, Ppn)>>,
    synced: RefCell<Vec<FsObjectId>>,
}

impl FsPageBacking for Store {
    fn fetch_page(&self, _object: FsObjectId, offset: u64) -> StepOutcome<Frame, NoProgress> {
        StepOutcome::Done(Frame::new(Ppn(offset as usize)))
    }

    fn flush_page(&self, _object: FsObjectId, offset: u64, frame: &Frame) -> FsReply {
        if offset >= self.limit {
            return StepOutcome::Error(Errno::EDQUOT);
        }
        self.flushed.borrow_mut().push((offset, frame.ppn()));
        StepOutcome::Done(())
    }

    fn truncate(&self, _object: FsObjectId, _new_size: u64) -> FsReply {
        StepOutcome::Done(())
    }

    fn fsync_file(&self, object: FsObjectId) -> FsReply {
        self.synced.borrow_mut().push(object);
        StepOutcome::Done(())
    }
}

fn store(limit: u64) -> Store {
    Store { limit, flushed: RefCell::new(vec![]), synced: RefCell::new(vec![]) }
}

#[test]
fn a_filesystem_has_its_defaults() {
    let fs = store(u64::MAX);
    let object = FsObjectId::new(1);
    assert!(!fs.uses_async_writeback());
    assert_eq!(fs.flush_batch_limit(), 1);
    assert!(matches!(fs.filesystem_stats(), StepOutcome::Error(Errno::ENOSYS)));
    assert_eq!(fs.prepare_write_range(object, 0, 1), StepOutcome::Done(()));
    assert_eq!(fs.fallocate(object, 9), StepOutcome::Done(()));
    assert!(!fs.supports_reflink(&PageContainer::new_file_cap(mount(1), object, 1)));
    assert_eq!(fs.sync_filesystem(FsObjectId::new(2)), StepOutcome::Done(()));
    assert_eq!(*fs.synced.borrow(), vec![FsObjectId::new(2)]);
}

#[test]
fn a_run_is_flushed_page_by_page_up_to_the_first_refusal() {
    let object = FsObjectId::new(1);
    let frames: Vec<Frame> = (1..4).map(|ppn| Frame::new(Ppn(ppn))).collect();
    let fs = store(u64::MAX);
    assert_eq!(fs.flush_pages(object, 4096, &frames), StepOutcome::Done(()));
    assert_eq!(*fs.flushed.borrow(), vec![(4096, Ppn(1)), (8192, Ppn(2)), (12288, Ppn(3))]);
    assert_eq!(fs.flush_pages(object, 0, &vec![]), StepOutcome::Done(()));

    let fs = store(8192);
    assert_eq!(fs.flush_pages(object, 4096, &frames), StepOutcome::Error(Errno::EDQUOT));
    assert_eq!(*fs.flushed.borrow(), vec![(4096, Ppn(1))]);

    let fs = store(u64::MAX);
    let last = u64::MAX - 4095;
    assert_eq!(fs.flush_pages(object, last, &frames), StepOutcome::Error(Errno::EINVAL));
    assert_eq!(fs.flushed.borrow().len(), 1);
}

#[test]
fn a_flush_goes_on_only_when_it_is_done() {
    assert_eq!(after_flush(4096, StepOutcome::Done(())), Ok(8192));
    assert_eq!(
        after_flush(u64::MAX - 4095, StepOutcome::Done(())),
        Err(StepOutcome::Error(Errno::EINVAL))
    );
    let waiting: FsReply = StepOutcome::Continue { progress: NoProgress };
    assert_eq!(after_flush(0, waiting), Err(StepOutcome::Continue { progress: NoProgress }));
}

fn read_request(id: u64) -> PageIoRequest {
    PageIoRequest::new(
        PageIoRequestId::new(id),
        PageIoRange::new(3, 1),
        PageIoOp::Read,
        PageIoPriority::Demand,
        PageIoFlags::Demand,
        Some(PageGeneration::new(1)),
    )
}

fn submit(service: &mut PageSubmission, page: u64, op: PageIoOp) -> Option<PageIoRequestId> {
    service.submit(
        PageIoRange::new(page, 1),
        op,
        PageIoPriority::Demand,
        PageIoFlags::Demand,
        None,
    )
}

#[test]
fn requests_are_numbered_and_bounded() {
    let mut service = PageSubmission::new(2);
    let first = submit(&mut service, 1, PageIoOp::Read).expect("first");
    let second = submit(&mut service, 2, PageIoOp::Writeback).expect("second");
    assert_ne!(first, second);
    assert_eq!(submit(&mut service, 3, PageIoOp::Read), None);
    assert_eq!(
        service.find_submission(PageIoRange::new(2, 1), PageIoOp::Writeback).expect("found").id,
        second
    );
    assert_eq!(service.find_submission(PageIoRange::new(2, 1), PageIoOp::Read), None);
    service.register_waiter(first, PageWaiter { source_id: 5, interests: 1 });
    service.register_waiter(first, PageWaiter { source_id: 6, interests: 1 });
    assert_eq!(service.waiter_count(first), 2);
    assert_eq!(service.waiter_count(second), 0);
}

#[test]
fn an_owner_is_admitted_once_and_taken_once() {
    let mut service = PageSubmission::new(4);
    let id = submit(&mut service, 3, PageIoOp::Read).expect("request");
    let target = |ppn| CachedFrame::from_pin(CachePin { ppn: Ppn(ppn) });
    let owned = OwnedFileIoRequest::read(read_request(id.raw()), target(8));
    assert!(service.admit_file_request(owned));
    let twice = OwnedFileIoRequest::read(read_request(id.raw()), target(9));
    assert!(!service.admit_file_request(twice));
    assert_eq!(service.admitted_file_read_count(), 1);
    assert_eq!(service.admitted_file_writeback_count(), 0);
    assert_eq!(
        service.file_request_data(id),
        (
            IoDataSource::Absent,
            IoDataTarget::PageCache {
                lease: IoDataLeaseId::new(id.raw()),
                frame: Ppn(8),
                offset: 0,
                len: 4096,
            }
        )
    );
    let (taken, _waiters) = service.take_file_request(id);
    assert!(taken.expect("owner").is_read());
    assert!(service.take_file_request(id).0.is_none());
    assert_eq!(service.submission_len(), 0);
    assert_eq!(service.file_request_data(id), (IoDataSource::Absent, IoDataTarget::Absent));
}

fn page_lease(ppn: usize) -> PageLease {
    PageLease::from_pin(CachePin { ppn: Ppn(ppn) })
}

#[test]
fn a_lease_describes_the_frames_it_keeps() {
    let single = PageDataLease::single(IoDataLeaseId::new(4), page_lease(8));
    assert_eq!(
        single.source(),
        IoDataSource::PageCache {
            lease: IoDataLeaseId::new(4),
            frame: Ppn(8),
            offset: 0,
            len: 4096,
        }
    );
    let several = PageDataLease::from_pages(
        IoDataLeaseId::new(5),
        vec![page_lease(8), page_lease(9)],
    )
    .expect("two pages");
    assert_eq!(
        several.source(),
        IoDataSource::Direct {
            lease: IoDataLeaseId::new(5),
            vecs: vec![BioVec::new(8, 0, 4096), BioVec::new(9, 0, 4096)],
        }
    );
    assert_eq!(
        several.with_id(IoDataLeaseId::new(6)).source().lease(),
        Some(IoDataLeaseId::new(6))
    );
    assert!(matches!(
        PageDataLease::from_pages(IoDataLeaseId::new(7), vec![]),
        Err(PageDataLeaseError::Empty)
    ));
}

#[test]
fn a_lease_is_kept_only_with_a_pin() {
    let lease = page_lease(8);
    assert_eq!(lease.retain(Ok(())).expect("retained").ppn(), Ppn(8));
    assert_eq!(
        lease.retain(Err(AllocError::Exhausted)).err(),
        Some(PageCacheError::Alloc(AllocError::Exhausted))
    );
}

#[test]
fn a_sparse_map_keeps_its_keys_in_order() {
    let mut map: SparseMap<&str> = SparseMap::new();
    assert!(map.is_empty());
    for (key, value) in [(9, "nine"), (2, "two"), (u64::MAX, "last"), (5, "five")] {
        assert_eq!(map.insert(key, value), None);
    }
    assert_eq!(map.insert(5, "cinq"), Some("five"));
    let keys: Vec<u64> = (0..map.len()).map(|i| map.key_at(i)).collect();
    assert_eq!(keys, vec![2, 5, 9, u64::MAX]);
    assert_eq!(*map.value_at(1), "cinq");
    *map.get_mut(9) = "neuf";
    assert_eq!(map.get(9), Some(&"neuf"));
    assert_eq!(map.get(3), None);
    assert_eq!(map.remove(2), Some("two"));
    assert_eq!(map.remove(2), None);
    let taken = map.split_off(9);
    assert_eq!(map.len(), 1);
    assert_eq!(taken.len(), 2);
    assert!(map.contains_key(5));
    assert!(taken.contains_key(u64::MAX));
}

#[test]
fn a_page_outside_its_container_is_refused() {
    let pc = PageContainer::new_file_cap(mount(1), FsObjectId::new(7), 4097);
    assert_eq!(pc.check_bounds(PageIndex::new(1)), Ok(()));
    assert_eq!(pc.check_bounds(PageIndex::new(2)), Err(PageCacheError::OutOfBounds));
    assert_eq!(pc.byte_capacity(), Some(8192));
}
