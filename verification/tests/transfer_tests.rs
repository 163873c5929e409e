use page_backed::access_run::{
    AccessEvent, AccessNotes, AccessReplies, FetchReplies, PageOutcome,
};
use page_backed::block_runtime::BackendSubmitOutcome;
use page_backed::completion::CompletionAnswers;
use page_backed::container::{
    AnonSwapPolicy, MaterializeAccess, MountPin, PageContainer, PageContainerKind,
};
use page_backed::frame::{CachePin, CachedFrame, Frame, PageCacheError};
use page_backed::ids::{AllocError, Errno, FsObjectId, PageIndex, Ppn, USER_PAGE_SIZE};
use page_backed::io::{
    PageCompletionRoute, PageIoCompletion, PageIoCompletionKind, PageIoOp, PageIoRange,
    PageIoResult,
};
use page_backed::lifecycle::{step_truncate, FsReply};
use page_backed::materialize::PinGrants;
use page_backed::page_access::{AccessAnswers, AccessStep};
use page_backed::planned_fetch::{DriveReplies, ServiceTurn};
use page_backed::service::{BackendReply, BackendSubmission, ServiceItem};
use page_backed::step::{ByteProgress, NoProgress, StepOutcome, YieldShape};
use page_backed::transfer::{
    begin_copy, step_copy_file_range, step_copy_within_file, step_read, step_write, CopyChunk, CopyCursor, CopyEnd,
    CopyFileRangeOp, CopyMove, CopyReplies, CopyStart, CopyTurn, OpenFile, PageBackedIoKind,
    PageChunk, RangeCursor, RangeTurn, ReadOp, TransferStart, WriteOp,
};
use std::collections::BTreeMap;

const PAGE: u64 = USER_PAGE_SIZE as u64;

/// Memory and the answers of a filesystem.
struct World {
    frames: BTreeMap<usize, Vec<u8>>,
    next: usize,
    prepare: fn() -> FsReply,
    fetch: fn(Ppn) -> StepOutcome<Frame, NoProgress>,
    prepares: usize,
    fetches: usize,
}

fn prepared() -> FsReply {
    StepOutcome::Done(())
}

fn fetched(ppn: Ppn) -> StepOutcome<Frame, NoProgress> {
    StepOutcome::Done(Frame::new(ppn))
}

impl World {
    fn new() -> Self {
        World {
            frames: BTreeMap::new(),
            next: 0x1000,
            prepare: prepared,
            fetch: fetched,
            prepares: 0,
            fetches: 0,
        }
    }

    fn zeroed(&mut self) -> Ppn {
        let ppn = self.next;
        self.next += 1;
        self.frames.insert(ppn, vec![0; USER_PAGE_SIZE]);
        Ppn(ppn)
    }

    fn answers(&mut self) -> AccessAnswers {
        AccessAnswers {
            pins: PinGrants { cache: Ok(()), map: Ok(()) },
            retire: true,
            allocated: Ok(CachedFrame::from_pin(CachePin { ppn: self.zeroed() })),
            fresh: 500,
        }
    }

    /// Access one page to its end.
    fn access(&mut self, pc: &mut PageContainer, page: PageIndex, access: MaterializeAccess) -> PageOutcome {
        let answers = self.answers();
        let mut step = pc.materialize_page(page, access, answers).step;
        loop {
            step = match step {
                AccessStep::Finished(outcome) => return outcome,
                AccessStep::PrepareWrite { .. } => {
                    self.prepares += 1;
                    let reply = (self.prepare)();
                    let answers = self.answers();
                    pc.resume_prepared_write(page, access, reply, answers).step
                }
                AccessStep::Fetch { fetch, .. } => {
                    self.fetches += 1;
                    let frame = self.zeroed();
                    let reply = (self.fetch)(frame);
                    let pins = PinGrants { cache: Ok(()), map: Ok(()) };
                    let (outcome, _) = pc.resume_fetched_page(
                        page, access, fetch, reply, Ok(()), Ok(()), pins, true,
                    );
                    return outcome;
                }
                AccessStep::Drive { .. } => panic!("no planner in these tests"),
            };
        }
    }

    /// Answers to the access of one page.
    fn replies(&mut self) -> AccessReplies {
        let frame = self.zeroed();
        AccessReplies {
            first: self.answers(),
            prepared: (self.prepare)(),
            after_prepare: self.answers(),
            drive: idle(),
            fetch: FetchReplies {
                fetched: (self.fetch)(frame),
                pinned: Ok(()),
                released: Ok(()),
                pins: PinGrants { cache: Ok(()), map: Ok(()) },
                retire: true,
            },
        }
    }

    /// Answers to the accesses that `len` bytes may need.
    fn replies_for(&mut self, len: usize) -> Vec<AccessReplies> {
        (0..len / USER_PAGE_SIZE + 2).map(|_| self.replies()).collect()
    }

    fn copy_replies(&mut self) -> CopyReplies {
        CopyReplies { input: self.replies(), output: self.replies(), mapped: true }
    }

    fn read(
        &mut self,
        pc: &mut PageContainer,
        of: &mut OpenFile,
        len: usize,
    ) -> StepOutcome<usize, ByteProgress> {
        let replies = self.replies_for(len);
        step_read(pc, of, len, replies, &mut AccessNotes::new()).expect("every page came out")
    }

    fn write(
        &mut self,
        pc: &mut PageContainer,
        of: &mut OpenFile,
        len: usize,
    ) -> StepOutcome<usize, ByteProgress> {
        let replies = self.replies_for(len);
        step_write(pc, of, len, replies, &mut AccessNotes::new()).expect("every page came out")
    }

    /// Write step by step, making the calls that the steps ask for.
    fn write_stepwise(
        &mut self,
        pc: &mut PageContainer,
        offset: u64,
        len: usize,
    ) -> StepOutcome<usize, ByteProgress> {
        let mut cursor = match pc.begin_write(offset, len) {
            TransferStart::Finished(outcome) => return outcome,
            TransferStart::Run(cursor) => cursor,
        };
        loop {
            let answers = self.answers();
            let mut step = cursor.step_page(pc, answers);
            while let RangeTurn::Access(access) = step.turn {
                let event = self.event(access);
                step = cursor.resume_page(pc, event);
            }
            if let RangeTurn::Ended(outcome) = step.turn {
                pc.publish_progress(offset, cursor.advanced);
                return outcome;
            }
        }
    }

    /// Make the call that `step` asks for.
    fn event(&mut self, step: AccessStep) -> AccessEvent {
        match step {
            AccessStep::PrepareWrite { .. } => {
                self.prepares += 1;
                AccessEvent::Prepared { reply: (self.prepare)(), answers: self.answers() }
            }
            AccessStep::Fetch { fetch, .. } => {
                self.fetches += 1;
                AccessEvent::Fetched { fetch, replies: self.replies().fetch }
            }
            other => panic!("no planner in these tests: {other:?}"),
        }
    }

    /// Move the bytes of a copy.
    fn carry(&mut self, moves: &[CopyMove]) {
        for CopyMove { chunk, from, to } in moves {
            let bytes =
                self.frames[&from.0][chunk.in_within..chunk.in_within + chunk.len].to_vec();
            self.frames.get_mut(&to.0).expect("target frame")
                [chunk.out_within..chunk.out_within + chunk.len]
                .copy_from_slice(&bytes);
        }
    }

    fn copy(
        &mut self,
        in_pc: &mut PageContainer,
        in_offset: u64,
        out_pc: &mut PageContainer,
        out_offset: u64,
        len: usize,
    ) -> CopyEnd {
        let replies: Vec<CopyReplies> =
            (0..2 * (len / USER_PAGE_SIZE + 2)).map(|_| self.copy_replies()).collect();
        let notes = &mut AccessNotes::new();
        let end = step_copy_file_range(in_pc, in_offset, out_pc, out_offset, len, replies, notes)
            .expect("every page came out");
        self.carry(&end.moves);
        end
    }

    fn write_pattern(&mut self, pc: &mut PageContainer, offset: u64, bytes: &[u8]) {
        for (i, byte) in bytes.iter().enumerate() {
            let at = offset + i as u64;
            let page = PageIndex::new(at / PAGE);
            if pc.lookup(page).is_none() {
                self.access(pc, page, MaterializeAccess::Write);
            }
            let ppn = pc.lookup(page).expect("page is there").0;
            self.frames.get_mut(&ppn).expect("frame")[(at % PAGE) as usize] = *byte;
        }
        pc.grow_size_to(offset + bytes.len() as u64);
    }

    fn read_pattern(&mut self, pc: &mut PageContainer, offset: u64, len: usize) -> Vec<u8> {
        (0..len as u64)
            .map(|i| {
                let at = offset + i;
                let page = PageIndex::new(at / PAGE);
                if pc.lookup(page).is_none() {
                    self.access(pc, page, MaterializeAccess::Read);
                }
                let ppn = pc.lookup(page).expect("page is there").0;
                self.frames[&ppn][(at % PAGE) as usize]
            })
            .collect()
    }
}

/// A page service that has nothing to do.
fn idle() -> DriveReplies {
    let turn = || ServiceTurn { items: vec![], runnable: false, accepted: false };
    DriveReplies {
        first: turn(),
        second: turn(),
        pins: PinGrants { cache: Ok(()), map: Ok(()) },
        fresh: 501,
    }
}

fn anon_pc(pages: u64) -> PageContainer {
    PageContainer::new(
        PageContainerKind::Anon { swap_policy: AnonSwapPolicy::Reclaimable },
        pages,
    )
}

fn device_pc(base: usize) -> PageContainer {
    PageContainer::new(PageContainerKind::Device { base_ppn: Ppn(base), page_count: 1 }, 1)
}

fn file_pc(object: u64, pages: u64) -> PageContainer {
    PageContainer::new(
        PageContainerKind::File {
            mount: MountPin { trace_id: 1, backend_planner: false },
            fs_object_id: FsObjectId::new(object),
        },
        pages,
    )
}

fn truncate(pc: &mut PageContainer, size: u64) {
    assert_eq!(
        step_truncate(pc, size, &StepOutcome::Done(()), true).outcome,
        StepOutcome::Done(())
    );
}

#[test]
fn page_container_size_starts_at_fixed_capacity() {
    assert_eq!(anon_pc(3).size_bytes(), 3 * PAGE);
}

#[test]
fn pagebacked_step_read_uses_visible_size_not_capacity() {
    let mut world = World::new();
    let mut pc = anon_pc(2);
    truncate(&mut pc, PAGE);
    let mut of = OpenFile::new(0);
    of.set_offset(PAGE);

    assert_eq!(world.read(&mut pc, &mut of, 16), StepOutcome::Done(0));
    assert_eq!(of.offset(), PAGE);
    assert_eq!(pc.resident_pages(), 0);
}

#[test]
fn pagebacked_step_write_extends_visible_size_within_capacity() {
    let mut world = World::new();
    let mut pc = anon_pc(2);
    truncate(&mut pc, 8);
    let mut of = OpenFile::new(0);
    of.set_offset(PAGE + 9);

    assert_eq!(world.write(&mut pc, &mut of, 7), StepOutcome::Done(7));

    assert_eq!(of.offset(), PAGE + 16);
    assert_eq!(pc.size_bytes(), PAGE + 16);
    assert!(pc.page_marks(PageIndex::new(1)).expect("page 1").dirty);
}

#[test]
fn pagebacked_step_write_rejects_growth_beyond_capacity_without_size_change() {
    let mut world = World::new();
    let mut pc = anon_pc(1);
    truncate(&mut pc, 8);
    let mut of = OpenFile::new(0);
    of.set_offset(PAGE - 4);

    assert_eq!(world.write(&mut pc, &mut of, 8), StepOutcome::Error(Errno::EINVAL));

    assert_eq!(of.offset(), PAGE - 4);
    assert_eq!(pc.size_bytes(), 8);
    assert_eq!(pc.resident_pages(), 0);
}

#[test]
fn pagebacked_step_read_materializes_pages_and_advances_offset() {
    let mut world = World::new();
    let mut pc = anon_pc(3);
    let mut of = OpenFile::new(0);
    of.set_offset(PAGE - 8);

    assert_eq!(world.read(&mut pc, &mut of, 32), StepOutcome::Done(32));

    assert_eq!(of.offset(), PAGE - 8 + 32);
    assert_eq!(pc.resident_pages(), 2);
    assert!(!pc.page_marks(PageIndex::new(0)).expect("page 0").dirty);
    assert!(!pc.page_marks(PageIndex::new(1)).expect("page 1").dirty);
}

#[test]
fn pagebacked_step_read_eof_does_not_materialize() {
    let mut world = World::new();
    let mut pc = anon_pc(1);
    let mut of = OpenFile::new(0);
    of.set_offset(PAGE);

    assert_eq!(world.read(&mut pc, &mut of, 16), StepOutcome::Done(0));
    assert_eq!(of.offset(), PAGE);
    assert_eq!(pc.resident_pages(), 0);
}

#[test]
fn pagebacked_step_write_marks_dirty_and_advances_offset() {
    let mut world = World::new();
    let mut pc = anon_pc(2);
    let mut of = OpenFile::new(0);

    assert_eq!(
        world.write(&mut pc, &mut of, USER_PAGE_SIZE + 17),
        StepOutcome::Done(USER_PAGE_SIZE + 17)
    );

    assert_eq!(of.offset(), PAGE + 17);
    assert!(pc.page_marks(PageIndex::new(0)).expect("page 0").dirty);
    assert!(pc.page_marks(PageIndex::new(1)).expect("page 1").dirty);
}

#[test]
fn file_page_write_prepares_backend_before_dirty_publication() {
    let mut world = World::new();
    world.prepare = || StepOutcome::Error(Errno::EOPNOTSUPP);
    let mut pc = file_pc(121, 2);
    pc.set_size_bytes(0);
    let mut of = OpenFile::new(0);

    assert_eq!(
        world.write(&mut pc, &mut of, 32),
        StepOutcome::Error(Errno::EOPNOTSUPP)
    );
    assert_eq!(
        world.write_stepwise(&mut pc, 0, 32),
        StepOutcome::Error(Errno::EOPNOTSUPP)
    );
    assert_eq!(world.prepares, 1);
    assert_eq!(
        world.fetches, 0,
        "backend rejection must happen before PageBacked fetches or installs a writable page"
    );
    assert_eq!(of.offset(), 0);
    assert_eq!(pc.resident_pages(), 0);
    assert!(pc.page_marks(PageIndex::new(0)).is_none());
}

#[test]
fn pagebacked_step_read_returns_advanced_then_blocked_after_progress() {
    let mut world = World::new();
    world.fetch = |_| StepOutcome::Yield {
        progress: NoProgress,
        shape: YieldShape::OnWaitSource { source: 9, interests: 0x44 },
    };
    let mut pc = file_pc(88, 2);
    let mut of = OpenFile::new(0);
    let frame = CachedFrame::from_pin(CachePin { ppn: world.zeroed() });
    pc.install_resident_if_absent_published(PageIndex::new(0), frame, true)
        .expect("seed cached page");

    assert_eq!(
        world.read(&mut pc, &mut of, USER_PAGE_SIZE + 1),
        StepOutcome::Yield {
            progress: ByteProgress::new(USER_PAGE_SIZE),
            shape: YieldShape::OnWaitSource { source: 9, interests: 0x44 },
        }
    );
    assert_eq!(of.offset(), PAGE);
}

#[test]
fn pagebacked_step_write_rejects_device_backing() {
    let mut world = World::new();
    let mut pc = device_pc(0xface_0000);
    let mut of = OpenFile::new(0);

    assert_eq!(world.write(&mut pc, &mut of, 8), StepOutcome::Error(Errno::EINVAL));
    assert_eq!(of.offset(), 0);
    assert_eq!(pc.resident_pages(), 0);
}

#[test]
fn read_op_advances_offset_through_step() {
    let mut world = World::new();
    let mut pc = anon_pc(3);
    let mut of = OpenFile::new(PAGE - 8);
    let op = ReadOp { len: 32 };
    let replies = world.replies_for(32);

    assert_eq!(
        op.step(&mut pc, &mut of, replies, &mut AccessNotes::new()),
        Some(StepOutcome::Done(32))
    );
    assert_eq!(of.offset(), PAGE - 8 + 32);
}

#[test]
fn read_op_eof_returns_done_zero() {
    let mut pc = anon_pc(1);
    let mut of = OpenFile::new(PAGE);
    let op = ReadOp { len: 16 };

    assert_eq!(
        op.step(&mut pc, &mut of, vec![], &mut AccessNotes::new()),
        Some(StepOutcome::Done(0))
    );
    assert_eq!(pc.resident_pages(), 0);
}

#[test]
fn write_op_marks_dirty_and_advances_offset() {
    let mut world = World::new();
    let mut pc = anon_pc(2);
    let mut of = OpenFile::new(0);
    let len = USER_PAGE_SIZE + 17;
    let op = WriteOp { len };
    let replies = world.replies_for(len);

    assert_eq!(
        op.step(&mut pc, &mut of, replies, &mut AccessNotes::new()),
        Some(StepOutcome::Done(len))
    );
    assert_eq!(of.offset(), len as u64);
    assert!(pc.page_marks(PageIndex::new(0)).expect("page 0").dirty);
    assert!(pc.page_marks(PageIndex::new(1)).expect("page 1").dirty);
}

#[test]
fn write_op_rejects_device_backing() {
    let mut pc = device_pc(0xface_0000);
    let mut of = OpenFile::new(0);
    let op = WriteOp { len: 8 };

    assert_eq!(
        op.step(&mut pc, &mut of, vec![], &mut AccessNotes::new()),
        Some(StepOutcome::Error(Errno::EINVAL))
    );
    assert_eq!(of.offset(), 0);
    assert_eq!(pc.resident_pages(), 0);
}

#[test]
fn copy_file_range_op_zero_len_returns_done_zero() {
    let mut src = anon_pc(1);
    let mut dst = anon_pc(1);
    let op = CopyFileRangeOp { in_offset: 0, out_offset: 0, len: 0 };
    let end = op
        .step(&mut src, &mut dst, vec![], &mut AccessNotes::new())
        .expect("no page is needed");
    assert_eq!(end.outcome, StepOutcome::Done(0));
    assert!(end.moves.is_empty());
}

#[test]
fn pagebacked_step_copy_file_range_anon_to_anon_within_one_page_each() {
    let mut world = World::new();
    let mut src = anon_pc(2);
    let mut dst = anon_pc(2);
    truncate(&mut dst, 0);
    let payload: Vec<u8> = (0u8..200).collect();
    world.write_pattern(&mut src, 0, &payload);

    let end = world.copy(&mut src, 0, &mut dst, 0, payload.len());
    assert_eq!(end.outcome, StepOutcome::Done(payload.len()));
    assert_eq!(dst.size_bytes(), payload.len() as u64);
    assert_eq!(world.read_pattern(&mut dst, 0, payload.len()), payload);
}

#[test]
fn pagebacked_step_copy_file_range_crosses_page_boundary_at_different_alignments() {
    let mut world = World::new();
    let mut src = anon_pc(3);
    let mut dst = anon_pc(3);
    let payload: Vec<u8> = (0..(USER_PAGE_SIZE + 100)).map(|i| ((i & 0xff) | 0x80) as u8).collect();
    world.write_pattern(&mut src, 50, &payload);

    let end = world.copy(&mut src, 50, &mut dst, 4096 - 7, payload.len());
    assert_eq!(end.outcome, StepOutcome::Done(payload.len()));
    assert_eq!(world.read_pattern(&mut dst, 4096 - 7, payload.len()), payload);
}

#[test]
fn pagebacked_step_copy_file_range_truncates_to_source_eof() {
    let mut world = World::new();
    let mut src = anon_pc(2);
    let mut dst = anon_pc(2);
    let payload: Vec<u8> = (0u8..40).collect();
    world.write_pattern(&mut src, 0, &payload);
    truncate(&mut src, 40);

    let end = world.copy(&mut src, 10, &mut dst, 0, 1024);
    assert_eq!(end.outcome, StepOutcome::Done(30));
    assert_eq!(world.read_pattern(&mut dst, 0, 30), payload[10..40]);
}

#[test]
fn pagebacked_step_copy_file_range_returns_done_zero_when_source_is_at_eof() {
    let mut world = World::new();
    let mut src = anon_pc(1);
    let mut dst = anon_pc(1);
    truncate(&mut src, 32);

    let end = world.copy(&mut src, 32, &mut dst, 0, 100);
    assert_eq!(end.outcome, StepOutcome::Done(0));
    assert_eq!(dst.size_bytes(), dst.page_count() * PAGE);
}

#[test]
fn pagebacked_step_copy_file_range_rejects_device_destination() {
    let mut world = World::new();
    let mut src = anon_pc(1);
    let mut device = device_pc(0xface_4000);
    let payload = vec![0xa5u8; 16];
    world.write_pattern(&mut src, 0, &payload);

    let end = world.copy(&mut src, 0, &mut device, 0, payload.len());
    assert_eq!(end.outcome, StepOutcome::Error(Errno::EINVAL));
}

#[test]
fn pagebacked_step_copy_file_range_rejects_writes_past_destination_capacity() {
    let mut world = World::new();
    let mut src = anon_pc(2);
    let mut dst = anon_pc(1);
    let payload: Vec<u8> = (0u8..200).collect();
    world.write_pattern(&mut src, 0, &payload);

    let end = world.copy(&mut src, 0, &mut dst, PAGE - 50, payload.len());
    assert_eq!(end.outcome, StepOutcome::Error(Errno::EINVAL));
    assert_eq!(dst.size_bytes(), PAGE);
}

#[test]
fn a_range_needs_an_answer_for_every_page() {
    let mut world = World::new();
    let mut pc = anon_pc(3);
    let mut of = OpenFile::new(10);
    let len = 2 * USER_PAGE_SIZE;
    let notes = &mut AccessNotes::new();
    let one = vec![world.replies()];
    assert_eq!(step_read(&mut pc, &mut of, len, one, notes), None);
    assert_eq!(of.offset(), 10);
    assert_eq!(pc.resident_pages(), 1);
    let three = vec![world.replies(), world.replies(), world.replies()];
    assert_eq!(step_read(&mut pc, &mut of, len, three, notes), Some(StepOutcome::Done(len)));
    assert_eq!(of.offset(), 10 + 2 * PAGE);
    assert_eq!(pc.resident_pages(), 3);
    assert!(notes.notify.is_empty() && !notes.kick_block && notes.work.is_empty());
}

#[test]
fn an_error_after_progress_is_a_short_transfer() {
    let mut world = World::new();
    let mut pc = anon_pc(3);
    truncate(&mut pc, 0);
    let mut of = OpenFile::new(0);
    let notes = &mut AccessNotes::new();
    let refused = |world: &mut World| {
        let mut replies = world.replies();
        replies.first.allocated = Err(PageCacheError::Alloc(AllocError::Exhausted));
        replies
    };
    let pages = vec![world.replies(), refused(&mut world)];
    assert_eq!(
        step_write(&mut pc, &mut of, 2 * USER_PAGE_SIZE, pages, notes),
        Some(StepOutcome::Done(USER_PAGE_SIZE))
    );
    assert_eq!(of.offset(), PAGE);
    assert_eq!(pc.size_bytes(), PAGE);

    let failing = vec![refused(&mut world)];
    assert_eq!(
        step_write(&mut pc, &mut of, 8, failing, notes),
        Some(StepOutcome::Error(Errno::ENOMEM))
    );
    assert_eq!(of.offset(), PAGE);
    assert_eq!(pc.size_bytes(), PAGE);

    let mut file = file_pc(9, 1);
    let mut of = OpenFile::new(0);
    world.prepare = || StepOutcome::Yield { progress: NoProgress, shape: YieldShape::OnAgent };
    assert_eq!(world.write(&mut file, &mut of, 8), StepOutcome::Error(Errno::EIO));
}

#[test]
fn a_write_that_cannot_be_published_goes_on_and_a_copy_stops() {
    let mut world = World::new();
    let notes = &mut AccessNotes::new();
    let unpublished = |world: &mut World| {
        let mut replies = world.replies();
        replies.fetch.retire = false;
        replies
    };
    let mut file = file_pc(10, 1);
    let mut of = OpenFile::new(0);
    let replies = vec![unpublished(&mut world)];
    assert_eq!(
        step_write(&mut file, &mut of, 8, replies, notes),
        Some(StepOutcome::Done(8))
    );
    assert!(file.page_marks(PageIndex::new(0)).is_none());

    let mut dst = anon_pc(2);
    truncate(&mut dst, 0);
    let part = CopyReplies {
        input: unpublished(&mut world),
        output: world.replies(),
        mapped: true,
    };
    let end = step_copy_file_range(&mut file, 0, &mut dst, 0, 16, vec![part], notes)
        .expect("the copy ends");
    assert_eq!(end.outcome, StepOutcome::Error(Errno::EAGAIN));
    assert_eq!(dst.resident_pages(), 0);
}

#[test]
fn a_copy_stops_where_a_page_is_not_to_be_had() {
    let mut world = World::new();
    let mut src = anon_pc(2);
    let mut dst = file_pc(11, 2);
    truncate(&mut dst, 0);
    let notes = &mut AccessNotes::new();
    let unmapped = CopyReplies { mapped: false, ..world.copy_replies() };
    let end = step_copy_file_range(&mut src, 0, &mut dst, 0, 16, vec![unmapped], notes)
        .expect("the copy ends");
    assert_eq!(end.outcome, StepOutcome::Error(Errno::EIO));
    assert_eq!(dst.size_bytes(), 0);

    let first = world.copy_replies();
    world.prepare = || StepOutcome::Yield {
        progress: NoProgress,
        shape: YieldShape::OnWaitSource { source: 4, interests: 1 },
    };
    let pages = vec![first, world.copy_replies()];
    let end = step_copy_file_range(&mut src, 0, &mut dst, 0, USER_PAGE_SIZE + 1, pages, notes)
        .expect("the copy waits");
    assert_eq!(
        end.outcome,
        StepOutcome::Yield {
            progress: ByteProgress::new(USER_PAGE_SIZE),
            shape: YieldShape::OnWaitSource { source: 4, interests: 1 },
        }
    );
    assert_eq!(dst.size_bytes(), PAGE);
    assert_eq!(
        end.moves,
        vec![CopyMove {
            chunk: CopyChunk {
                in_page: PageIndex::new(0),
                in_within: 0,
                out_page: PageIndex::new(0),
                out_within: 0,
                len: USER_PAGE_SIZE,
            },
            from: src.lookup(PageIndex::new(0)).expect("source page"),
            to: dst.lookup(PageIndex::new(0)).expect("target page"),
        }]
    );
    assert!(step_copy_file_range(&mut src, 0, &mut dst, 0, 16, vec![], notes).is_none());
}

#[test]
fn every_page_that_a_copy_reaches_is_dirty() {
    let mut world = World::new();
    let mut src = anon_pc(2);
    let mut dst = anon_pc(3);
    let end = world.copy(&mut src, 0, &mut dst, PAGE - 3, USER_PAGE_SIZE + 6);
    assert_eq!(end.outcome, StepOutcome::Done(USER_PAGE_SIZE + 6));
    for page in 0..3u64 {
        assert!(dst.page_marks(PageIndex::new(page)).expect("target page").dirty);
    }
    for page in 0..2u64 {
        assert!(!src.page_marks(PageIndex::new(page)).expect("source page").dirty);
    }
    assert_eq!(src.size_bytes(), 2 * PAGE);
}

#[test]
fn copy_chunks_fit_both_pages() {
    let mut cursor = CopyCursor { in_offset: 4000, out_offset: 100, len: 5000, advanced: 0 };
    let mut moved = 0;
    let mut sizes = Vec::new();
    while let Some(chunk) = cursor.next() {
        assert_eq!(chunk.in_page.as_u64() * PAGE + chunk.in_within as u64, 4000 + moved);
        assert_eq!(chunk.out_page.as_u64() * PAGE + chunk.out_within as u64, 100 + moved);
        moved += chunk.len as u64;
        sizes.push(chunk.len);
        cursor.copied(true);
    }
    assert_eq!(moved, 5000);
    assert_eq!(sizes, vec![96, 3900, 196, 808]);
}

#[test]
fn a_range_cursor_walks_page_by_page_over_accesses() {
    let mut world = World::new();
    let mut pc = anon_pc(2);
    let mut cursor = RangeCursor::new(PageBackedIoKind::Write, PAGE - 1, 2);
    assert_eq!(
        cursor.next(),
        Some(PageChunk { page: PageIndex::new(0), within: USER_PAGE_SIZE - 1, len: 1 })
    );
    let answers = world.answers();
    let step = cursor.step_page(&mut pc, answers);
    assert!(matches!(step.turn, RangeTurn::Going));
    let answers = world.answers();
    let step = cursor.step_page(&mut pc, answers);
    assert!(matches!(step.turn, RangeTurn::Ended(StepOutcome::Done(2))));
    assert_eq!(cursor.next(), None);
    assert!(pc.page_marks(PageIndex::new(1)).expect("page 1").dirty);

    let mut read = RangeCursor::new(PageBackedIoKind::Read, 0, 1);
    let mut other = anon_pc(1);
    let answers = world.answers();
    read.step_page(&mut other, answers);
    assert!(!other.page_marks(PageIndex::new(0)).expect("page 0").dirty);

    let mut file = file_pc(7, 1);
    let mut cursor = RangeCursor::new(PageBackedIoKind::Write, 0, 1);
    let answers = world.answers();
    let step = cursor.step_page(&mut file, answers);
    assert!(matches!(
        step.turn,
        RangeTurn::Access(AccessStep::PrepareWrite { offset: 0, len: USER_PAGE_SIZE, .. })
    ));
    assert_eq!(cursor.advanced, 0);
    assert_eq!(world.write_stepwise(&mut file, 0, 1), StepOutcome::Done(1));
    assert_eq!((world.prepares, world.fetches), (1, 1));
    assert!(file.page_marks(PageIndex::new(0)).expect("page 0").dirty);
}

#[test]
fn a_copy_cursor_leaves_the_target_alone_until_the_source_is_there() {
    let mut world = World::new();
    let mut src = file_pc(12, 1);
    let mut dst = anon_pc(1);
    let cursor = CopyCursor { in_offset: 0, out_offset: 0, len: 8, advanced: 0 };
    let (input, output) = (world.answers(), world.answers());
    let steps = cursor.step_pages(&mut src, &mut dst, input, output);
    assert!(steps.target.is_none());
    assert_eq!(dst.resident_pages(), 0);
    let event = match steps.source.turn {
        CopyTurn::Access(step) => world.event(step),
        other => panic!("the page is not there yet: {other:?}"),
    };
    let source = cursor.resume_source(&mut src, event);
    assert!(matches!(source.turn, CopyTurn::Ready(_)));
    let (input, output) = (world.answers(), world.answers());
    let steps = cursor.step_pages(&mut src, &mut dst, input, output);
    assert!(matches!(steps.target.expect("target").turn, CopyTurn::Ready(_)));
    assert!(dst.page_marks(PageIndex::new(0)).expect("page 0").dirty);
}

#[test]
fn a_copy_within_one_container_moves_its_bytes() {
    let mut world = World::new();
    let mut pc = anon_pc(3);
    let payload: Vec<u8> = (1u8..=40).collect();
    world.write_pattern(&mut pc, PAGE - 20, &payload);
    truncate(&mut pc, 2 * PAGE);
    let replies: Vec<CopyReplies> = (0..4).map(|_| world.copy_replies()).collect();
    let notes = &mut AccessNotes::new();
    let end = step_copy_within_file(&mut pc, PAGE - 20, 2 * PAGE - 30, 40, replies, notes)
        .expect("every page came out");
    world.carry(&end.moves);
    assert_eq!(end.outcome, StepOutcome::Done(40));
    let sizes: Vec<usize> = end.moves.iter().map(|one| one.chunk.len).collect();
    assert_eq!(sizes, vec![20, 10, 10]);
    assert_eq!(world.read_pattern(&mut pc, 2 * PAGE - 30, 40), payload);
    assert_eq!(world.read_pattern(&mut pc, PAGE - 20, 40), payload);
    assert_eq!(pc.size_bytes(), 2 * PAGE + 10);
    for page in [1u64, 2] {
        assert!(pc.page_marks(PageIndex::new(page)).expect("target page").dirty);
    }
    assert!(step_copy_within_file(&mut pc, 0, PAGE, 4, vec![], notes).is_none());
    assert_eq!(
        step_copy_within_file(&mut pc, 0, 3 * PAGE, 4, vec![], notes).expect("no page").outcome,
        StepOutcome::Error(Errno::EINVAL)
    );
}

#[test]
fn a_lease_is_exported_once_its_page_is_there() {
    let mut world = World::new();
    let notes = &mut AccessNotes::new();
    let page = PageIndex::new(0);
    let mut file = file_pc(16, 1);
    let replies = world.replies();
    let lease = match file.export_page_lease(page, replies, notes, Ok(())) {
        StepOutcome::Done(lease) => lease,
        other => panic!("page lease: {other:?}"),
    };
    assert_eq!(Some(lease.ppn()), file.lookup(page));
    assert!(!file.page_marks(page).expect("page 0").dirty);

    let replies = world.replies();
    let refused = Err(AllocError::Exhausted);
    assert_eq!(
        file.export_page_lease(page, replies, notes, refused),
        StepOutcome::Error(Errno::ENOMEM)
    );
    let replies = world.replies();
    assert_eq!(
        device_pc(0xface_0000).export_page_lease(page, replies, notes, Ok(())),
        StepOutcome::Error(Errno::EINVAL)
    );
    world.fetch = |_| StepOutcome::Error(Errno::EIO);
    let replies = world.replies();
    assert_eq!(
        file_pc(17, 1).export_page_lease(page, replies, notes, Ok(())),
        StepOutcome::Error(Errno::EIO)
    );
}

#[test]
fn a_copy_within_one_container_is_stepped_by_its_cursor() {
    let mut world = World::new();
    let mut pc = anon_pc(2);
    world.write_pattern(&mut pc, 0, &[1, 2, 3, 4]);
    let mut cursor = match begin_copy(&pc, 0, &pc, PAGE - 2, 4) {
        CopyStart::Run(cursor) => cursor,
        other => panic!("the copy starts: {other:?}"),
    };
    let mut end = None;
    while let Some(chunk) = cursor.next() {
        let answers = world.answers();
        let CopyTurn::Ready(from) = cursor.step_source(&mut pc, answers).turn else {
            panic!("source page");
        };
        let answers = world.answers();
        let CopyTurn::Ready(to) = cursor.step_target(&mut pc, answers).turn else {
            panic!("target page");
        };
        world.carry(&[CopyMove { chunk, from: from.ppn, to: to.ppn }]);
        end = cursor.copied(true);
    }
    assert_eq!(end, Some(StepOutcome::Done(4)));
    assert_eq!(world.read_pattern(&mut pc, PAGE - 2, 4), vec![1, 2, 3, 4]);
    assert_eq!(
        CopyCursor { in_offset: 0, out_offset: 0, len: 4, advanced: 2 }.copied(false),
        Some(StepOutcome::Done(2))
    );
}

fn planned_pc() -> PageContainer {
    PageContainer::new(
        PageContainerKind::File {
            mount: MountPin { trace_id: 1, backend_planner: true },
            fs_object_id: FsObjectId::new(13),
        },
        2,
    )
}

#[test]
fn a_planned_write_runs_the_page_service_until_its_page_is_there() {
    let mut world = World::new();
    let page = PageIndex::new(0);
    let mut twin = planned_pc();
    let answers = world.answers();
    twin.materialize_page(page, MaterializeAccess::Write, answers);
    let answers = world.answers();
    twin.resume_prepared_write(page, MaterializeAccess::Write, prepared(), answers);
    let request = twin
        .page_submission
        .find_submission(PageIoRange::new(0, 1), PageIoOp::Read)
        .expect("queued read");
    let granted = CompletionAnswers { pinned: Ok(()), retire: true };
    let plan = || ServiceItem::Submission {
        request,
        reply: BackendReply::Planned {
            graph: false,
            submission: BackendSubmission::Settled(Ok(
                BackendSubmitOutcome::QueuedPageCompletions { queued: 1, wake: true },
            )),
        },
        answers: granted,
    };
    let completion = || ServiceItem::Completion {
        route: PageCompletionRoute {
            completion: PageIoCompletion::new(
                request.id,
                request.range,
                PageIoResult::Done,
                request.generation_hint.expect("read generation"),
                PageIoCompletionKind::ReadInstalled,
            ),
            frame: None,
            has_waiters: false,
        },
        answers: granted,
    };
    let turn = |items, runnable| ServiceTurn { items, runnable, accepted: true };

    let mut pc = planned_pc();
    let mut of = OpenFile::new(0);
    let mut replies = world.replies();
    replies.drive.first = turn(vec![plan()], true);
    replies.drive.second = turn(vec![completion()], false);
    let notes = &mut AccessNotes::new();
    assert_eq!(
        step_write(&mut pc, &mut of, 8, vec![replies], notes),
        Some(StepOutcome::Done(8))
    );
    assert_eq!(notes.work.len(), 2);
    let marks = pc.page_marks(page).expect("page 0");
    assert!(marks.dirty);

    // Without more to do after the first turn the second is not run, and the
    // filesystem fetches the page.
    let mut pc = planned_pc();
    let mut of = OpenFile::new(0);
    let mut replies = world.replies();
    replies.drive.first = turn(vec![plan()], false);
    replies.drive.second = turn(vec![completion()], false);
    let fetched = match &replies.fetch.fetched {
        StepOutcome::Done(frame) => frame.ppn(),
        other => panic!("the filesystem has the page: {other:?}"),
    };
    let notes = &mut AccessNotes::new();
    assert_eq!(
        step_write(&mut pc, &mut of, 8, vec![replies], notes),
        Some(StepOutcome::Done(8))
    );
    assert_eq!(notes.work.len(), 1);
    assert_eq!(pc.lookup(page), Some(fetched));
}

#[test]
fn a_planned_write_whose_request_fails_is_not_driven_again() {
    let mut world = World::new();
    let page = PageIndex::new(0);
    let mut twin = planned_pc();
    let answers = world.answers();
    twin.materialize_page(page, MaterializeAccess::Read, answers);
    let request = twin
        .page_submission
        .find_submission(PageIoRange::new(0, 1), PageIoOp::Read)
        .expect("queued read");
    let failing = ServiceItem::Submission {
        request,
        reply: BackendReply::Planned {
            graph: false,
            submission: BackendSubmission::Settled(Ok(BackendSubmitOutcome::Error {
                request,
                errno: Errno::EOPNOTSUPP,
            })),
        },
        answers: CompletionAnswers { pinned: Ok(()), retire: true },
    };
    let mut pc = planned_pc();
    let mut of = OpenFile::new(0);
    let mut replies = world.replies();
    replies.drive.first = ServiceTurn { items: vec![failing], runnable: true, accepted: true };
    let notes = &mut AccessNotes::new();
    assert_eq!(
        step_write(&mut pc, &mut of, 8, vec![replies], notes),
        Some(StepOutcome::Error(Errno::EOPNOTSUPP))
    );
    assert_eq!(notes.work.len(), 1);
    assert_eq!(pc.size_bytes(), 2 * PAGE);
    assert!(pc.lookup(page).is_none());
}

#[test]
fn a_fault_that_cannot_wait_gets_its_page_or_an_error() {
    let mut world = World::new();
    let notes = &mut AccessNotes::new();
    let page = PageIndex::new(0);
    let mut file = file_pc(14, 1);
    let replies = world.replies();
    let got = file
        .materialize_page_for_fault(page, MaterializeAccess::Write, replies, notes)
        .expect("page");
    assert!(got.dirty && got.newly_installed);
    assert_eq!(file.lookup(page), Some(got.ppn));

    let mut other = file_pc(15, 1);
    world.fetch = |_| StepOutcome::Yield {
        progress: NoProgress,
        shape: YieldShape::OnWaitSource { source: 9, interests: 1 },
    };
    let replies = world.replies();
    assert_eq!(
        other.materialize_page_now(page, MaterializeAccess::Read, replies, notes).err(),
        Some(PageCacheError::Backend(Errno::EAGAIN))
    );
    assert!(other.lookup(page).is_none());
}
