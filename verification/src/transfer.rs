//! Byte ranges over pages: read, write and copy. Each part of a range is
//! brought by an access to its page.

use crate::access_run::{
    answerable, lemma_access_frame, lemma_replies_bios, replies_bios, AccessEvent, AccessNotes,
    AccessReplies, NotesView, PageOutcome,
};
use crate::container::{ContainerView, MaterializeAccess, PageContainer};
use crate::frame::MaterializedPage;
use crate::ids::{Errno, PageIndex, Ppn, PAGE_BYTES, USER_PAGE_SIZE};
use crate::page_access::{AccessAnswers, AccessStep, AccessTurn};
use crate::step::{wait_source_parts, ByteProgress, StepOutcome, YieldShape};
use vstd::prelude::*;

verus! {

/// An open file, as far as transfers care.
#[derive(Clone, Copy, Debug, PartialEq, Eq, Structural)]
pub struct OpenFile {
    pub offset: u64,
}

impl OpenFile {
    pub fn new(offset: u64) -> (of: Self)
        ensures
            of == (OpenFile { offset }),
    {
        OpenFile { offset }
    }

    pub fn offset(&self) -> (offset: u64)
        ensures
            offset == self.offset,
    {
        self.offset
    }

    pub fn set_offset(&mut self, offset: u64)
        ensures
            *final(self) == (OpenFile { offset }),
    {
        self.offset = offset;
    }
}

/// Part of one page.
#[derive(Clone, Copy, Debug, PartialEq, Eq, Structural)]
pub struct PageChunk {
    pub page: PageIndex,
    pub within: usize,
    pub len: usize,
}

pub open spec fn min_int(a: int, b: int) -> int {
    if a <= b {
        a
    } else {
        b
    }
}

/// The bytes of the page of `offset` from there on, `left` at most.
pub open spec fn chunk_at(offset: int, left: int) -> PageChunk {
    let within = offset % PAGE_BYTES as int;
    PageChunk {
        page: PageIndex((offset / PAGE_BYTES as int) as u64),
        within: within as usize,
        len: min_int(left, PAGE_BYTES - within) as usize,
    }
}

fn chunk_of(offset: u64, left: usize) -> (chunk: PageChunk)
    ensures
        chunk == chunk_at(offset as int, left as int),
        chunk.within + chunk.len <= PAGE_BYTES,
        chunk.len <= left,
        left > 0 ==> chunk.len > 0,
        chunk.page.0 * PAGE_BYTES + chunk.within == offset,
{
    let within: usize = (offset % PAGE_BYTES) as usize;
    let room: usize = USER_PAGE_SIZE - within;
    let len: usize = if left <= room {
        left
    } else {
        room
    };
    PageChunk { page: PageIndex::new(offset / PAGE_BYTES), within, len }
}

/// Which way the bytes of a range go.
#[derive(Clone, Copy, Debug, PartialEq, Eq, Structural)]
pub enum PageBackedIoKind {
    Read,
    Write,
}

/// A range on its way: `advanced` of the `len` bytes from `start` on are done.
#[derive(Clone, Copy, Debug, PartialEq, Eq, Structural)]
pub struct RangeCursor {
    pub kind: PageBackedIoKind,
    pub start: u64,
    pub len: usize,
    pub advanced: usize,
}

impl RangeCursor {
    pub open spec fn wf(self) -> bool {
        &&& self.advanced <= self.len
        &&& self.start + self.len <= u64::MAX
    }

    pub open spec fn offset_spec(self) -> int {
        self.start + self.advanced
    }

    /// How the pages of the range are accessed: those of a write for writing.
    pub open spec fn access_spec(self) -> MaterializeAccess {
        match self.kind {
            PageBackedIoKind::Read => MaterializeAccess::Read,
            PageBackedIoKind::Write => MaterializeAccess::Write,
        }
    }

    pub open spec fn left(self) -> int {
        self.len - self.advanced
    }

    /// The part of a page that comes next.
    pub open spec fn next_chunk(self) -> PageChunk {
        chunk_at(self.offset_spec(), self.left())
    }

    /// With the next part done.
    pub open spec fn advance_spec(self) -> Self {
        RangeCursor { advanced: (self.advanced + self.next_chunk().len) as usize, ..self }
    }

    pub fn new(kind: PageBackedIoKind, start: u64, len: usize) -> (cursor: Self)
        ensures
            cursor == (RangeCursor { kind, start, len, advanced: 0 }),
    {
        RangeCursor { kind, start, len, advanced: 0 }
    }

    pub fn access(&self) -> (access: MaterializeAccess)
        ensures
            access == self.access_spec(),
    {
        match self.kind {
            PageBackedIoKind::Read => MaterializeAccess::Read,
            PageBackedIoKind::Write => MaterializeAccess::Write,
        }
    }

    pub fn offset(&self) -> (offset: u64)
        requires
            self.wf(),
        ensures
            offset == self.offset_spec(),
    {
        self.start + self.advanced as u64
    }

    /// The part of a page that has to be brought next, if any is left.
    pub fn next(&self) -> (chunk: Option<PageChunk>)
        requires
            self.wf(),
        ensures
            match chunk {
                Some(chunk) => {
                    &&& self.advanced < self.len
                    &&& chunk == self.next_chunk()
                    &&& 0 < chunk.len <= self.left()
                    &&& chunk.within + chunk.len <= PAGE_BYTES
                    &&& chunk.page.0 * PAGE_BYTES + chunk.within == self.offset_spec()
                },
                None => self.advanced == self.len,
            },
    {
        if self.advanced >= self.len {
            return None;
        }
        Some(chunk_of(self.offset(), self.len - self.advanced))
    }

    /// Note that the next part is done.
    pub fn advance(&mut self)
        requires
            old(self).wf(),
        ensures
            final(self).wf(),
            *final(self) == old(self).advance_spec(),
            old(self).advanced < old(self).len ==> final(self).advanced > old(self).advanced,
    {
        match self.next() {
            Some(chunk) => {
                self.advanced = self.advanced + chunk.len;
            },
            None => {
                assert(self.next_chunk().len == 0);
            },
        }
    }
}

/// The outcome of a range that stops after `advanced` bytes because of `errno`.
pub open spec fn cut_short(advanced: usize, errno: Errno) -> StepOutcome<usize, ByteProgress> {
    if advanced == 0 {
        StepOutcome::Error(errno)
    } else {
        StepOutcome::Done(advanced)
    }
}

fn cut(advanced: usize, errno: Errno) -> (outcome: StepOutcome<usize, ByteProgress>)
    ensures
        outcome == cut_short(advanced, errno),
{
    if advanced == 0 {
        StepOutcome::Error(errno)
    } else {
        StepOutcome::Done(advanced)
    }
}

/// The outcome of a range whose page has to be waited for after `advanced`
/// bytes.
pub open spec fn wait_short(advanced: usize, shape: YieldShape) -> StepOutcome<usize, ByteProgress> {
    if shape is OnWaitSource {
        StepOutcome::Yield { progress: ByteProgress(advanced), shape }
    } else {
        cut_short(advanced, Errno::EIO)
    }
}

fn wait_after(advanced: usize, shape: &YieldShape) -> (outcome: StepOutcome<usize, ByteProgress>)
    ensures
        outcome == wait_short(advanced, *shape),
{
    match wait_source_parts(shape) {
        Some((source, interests)) => StepOutcome::Yield {
            progress: ByteProgress::new(advanced),
            shape: YieldShape::OnWaitSource { source, interests },
        },
        None => cut(advanced, Errno::EIO),
    }
}

/// How a read or write range stops at the outcome of a page access, if it does.
/// A page that has to be tried again at once does not stop it.
pub open spec fn range_stop(advanced: usize, page: PageOutcome) -> Option<
    StepOutcome<usize, ByteProgress>,
> {
    match page {
        StepOutcome::Done(_) => None,
        StepOutcome::Continue { .. } => None,
        StepOutcome::Yield { shape, .. } => Some(wait_short(advanced, shape)),
        StepOutcome::Error(errno) => Some(cut_short(advanced, errno)),
    }
}

fn stop_range(advanced: usize, page: &PageOutcome) -> (outcome: Option<
    StepOutcome<usize, ByteProgress>,
>)
    ensures
        outcome == range_stop(advanced, *page),
{
    match page {
        StepOutcome::Done(_) => None,
        StepOutcome::Continue { .. } => None,
        StepOutcome::Yield { shape, .. } => Some(wait_after(advanced, shape)),
        StepOutcome::Error(errno) => Some(cut(advanced, *errno)),
    }
}

/// How a range ended.
#[derive(Debug)]
pub struct RangeEnd {
    pub outcome: StepOutcome<usize, ByteProgress>,
    /// Bytes that were transferred.
    pub advanced: usize,
}

/// A range over a container, as far as the answers to its accesses go.
#[verifier::ext_equal]
pub struct TransferView {
    pub view: ContainerView,
    pub notes: NotesView,
    /// There is none while more answers are needed.
    pub end: Option<RangeEnd>,
}

impl RangeCursor {
    /// The rest of the range: each part accesses its page, which `replies`
    /// answer from index `i` on.
    pub open spec fn run(
        self,
        view: ContainerView,
        notes: NotesView,
        replies: Seq<AccessReplies>,
        i: nat,
    ) -> TransferView
        decreases replies.len() - i,
    {
        if self.advanced >= self.len {
            TransferView {
                view,
                notes,
                end: Some(
                    RangeEnd { outcome: StepOutcome::Done(self.advanced), advanced: self.advanced },
                ),
            }
        } else if i >= replies.len() {
            TransferView { view, notes, end: None }
        } else {
            let one = view.access_whole(
                self.next_chunk().page,
                self.access_spec(),
                replies[i as int],
                notes,
            );
            match range_stop(self.advanced, one.outcome) {
                Some(outcome) => TransferView {
                    view: one.view,
                    notes: one.notes,
                    end: Some(RangeEnd { outcome, advanced: self.advanced }),
                },
                None => self.advance_spec().run(one.view, one.notes, replies, i + 1),
            }
        }
    }

    /// Take note of the outcome of the access to the next page. The range goes
    /// on while there is no outcome.
    pub fn apply(&mut self, page: &PageOutcome) -> (end: Option<StepOutcome<usize, ByteProgress>>)
        requires
            old(self).wf(),
            old(self).advanced < old(self).len,
        ensures
            final(self).wf(),
            match range_stop(old(self).advanced, *page) {
                Some(outcome) => end == Some(outcome) && *final(self) == *old(self),
                None => {
                    &&& *final(self) == old(self).advance_spec()
                    &&& end == if final(self).advanced == final(self).len {
                        Some(StepOutcome::<usize, ByteProgress>::Done(final(self).advanced))
                    } else {
                        None
                    }
                },
            },
    {
        match stop_range(self.advanced, page) {
            Some(outcome) => Some(outcome),
            None => {
                self.advance();
                if self.advanced == self.len {
                    Some(StepOutcome::Done(self.advanced))
                } else {
                    None
                }
            },
        }
    }
}

/// Access the pages of a range, one by one.
fn step_range(
    pc: &mut PageContainer,
    range: RangeCursor,
    replies: Vec<AccessReplies>,
    notes: &mut AccessNotes,
) -> (end: Option<RangeEnd>)
    requires
        range.wf(),
        old(pc).wf(),
        answerable(old(pc)@, replies@),
    ensures
        final(pc).wf(),
        (TransferView { view: final(pc)@, notes: final(notes)@, end }) == range.run(
            old(pc)@,
            old(notes)@,
            replies@,
            0,
        ),
{
    let ghost before = pc@;
    let ghost told = notes@;
    let ghost all = replies@;
    let mut rest = replies;
    let mut cursor = range;
    let ghost mut i: nat = 0;
    assert(rest@ =~= all.skip(0));
    while cursor.advanced < cursor.len
        invariant
            cursor.wf(),
            pc.wf(),
            before == old(pc)@,
            told == old(notes)@,
            all == replies@,
            answerable(before, all),
            i + rest@.len() == all.len(),
            rest@ == all.skip(i as int),
            pc@.block.next_id <= before.block.next_id + replies_bios(all, i),
            range.run(before, told, all, 0) == cursor.run(pc@, notes@, all, i),
        decreases rest@.len(),
    {
        if rest.len() == 0 {
            return None;
        }
        let one = rest.remove(0);
        assert(one == all[i as int]);
        assert(rest@ =~= all.skip((i + 1) as int));
        let page = chunk_of(cursor.offset(), cursor.len - cursor.advanced).page;
        let access = cursor.access();
        proof {
            lemma_replies_bios(all, i + 1, all.len());
            lemma_access_frame(pc@, page, access, one, notes@);
        }
        let outcome = pc.materialize_page_whole(page, access, one, notes);
        match stop_range(cursor.advanced, &outcome) {
            Some(outcome) => {
                return Some(RangeEnd { outcome, advanced: cursor.advanced });
            },
            None => {
                cursor.advance();
            },
        }
        proof {
            i = i + 1;
        }
    }
    Some(RangeEnd { outcome: StepOutcome::Done(cursor.advanced), advanced: cursor.advanced })
}

/// How a transfer starts.
#[derive(Debug)]
pub enum TransferStart {
    /// No page is needed.
    Finished(StepOutcome<usize, ByteProgress>),
    Run(RangeCursor),
}

impl ContainerView {
    /// Where the readable bytes end.
    pub open spec fn readable_end(self) -> int {
        min_int(self.size_bytes as int, self.page_count * PAGE_BYTES)
    }

    /// How a read of `len` bytes at `offset` starts: it is cut at the end of
    /// the file.
    pub open spec fn read_start(self, offset: u64, len: usize) -> TransferStart {
        if len == 0 {
            TransferStart::Finished(StepOutcome::Done(0))
        } else if self.capacity() is None {
            TransferStart::Finished(StepOutcome::Error(Errno::EINVAL))
        } else if offset >= self.readable_end() {
            TransferStart::Finished(StepOutcome::Done(0))
        } else {
            TransferStart::Run(
                RangeCursor {
                    kind: PageBackedIoKind::Read,
                    start: offset,
                    len: min_int(len as int, self.readable_end() - offset) as usize,
                    advanced: 0,
                },
            )
        }
    }

    /// How a write of `len` bytes at `offset` starts: it has to fit whole.
    pub open spec fn write_start(self, offset: u64, len: usize) -> TransferStart {
        if len == 0 {
            TransferStart::Finished(StepOutcome::Done(0))
        } else if self.kind is Device || self.capacity() is None || offset + len
            > self.capacity()->Some_0 {
            TransferStart::Finished(StepOutcome::Error(Errno::EINVAL))
        } else {
            TransferStart::Run(
                RangeCursor { kind: PageBackedIoKind::Write, start: offset, len, advanced: 0 },
            )
        }
    }

    /// A read of `len` bytes at `offset` whose page accesses `replies` answer.
    pub open spec fn read_step(
        self,
        offset: u64,
        len: usize,
        replies: Seq<AccessReplies>,
        notes: NotesView,
    ) -> TransferView {
        match self.read_start(offset, len) {
            TransferStart::Finished(outcome) => TransferView {
                view: self,
                notes,
                end: Some(RangeEnd { outcome, advanced: 0 }),
            },
            TransferStart::Run(cursor) => cursor.run(self, notes, replies, 0),
        }
    }

    /// A write of `len` bytes at `offset`, likewise. What it brought becomes
    /// visible at its end.
    pub open spec fn write_step(
        self,
        offset: u64,
        len: usize,
        replies: Seq<AccessReplies>,
        notes: NotesView,
    ) -> TransferView {
        match self.write_start(offset, len) {
            TransferStart::Finished(outcome) => TransferView {
                view: self,
                notes,
                end: Some(RangeEnd { outcome, advanced: 0 }),
            },
            TransferStart::Run(cursor) => {
                let ran = cursor.run(self, notes, replies, 0);
                match ran.end {
                    Some(end) => TransferView {
                        view: ran.view.with_progress(offset, end.advanced),
                        ..ran
                    },
                    None => ran,
                }
            },
        }
    }

    /// After `advanced` bytes at `offset` have been brought.
    pub open spec fn with_progress(self, offset: u64, advanced: usize) -> Self {
        if advanced > 0 {
            self.grown_to(offset + advanced)
        } else {
            self
        }
    }

    /// Visible up to `end` at least.
    pub open spec fn grown_to(self, end: int) -> Self {
        ContainerView {
            size_bytes: if end > self.size_bytes {
                end as u64
            } else {
                self.size_bytes
            },
            ..self
        }
    }
}

impl PageContainer {
    /// Start to read `len` bytes at `offset`.
    pub fn begin_read(&self, offset: u64, len: usize) -> (start: TransferStart)
        ensures
            start == self@.read_start(offset, len),
            start matches TransferStart::Run(cursor) ==> cursor.wf() && cursor.len > 0,
    {
        if len == 0 {
            return TransferStart::Finished(StepOutcome::Done(0));
        }
        let capacity: u64 = match self.byte_capacity() {
            Some(capacity) => capacity,
            None => {
                return TransferStart::Finished(StepOutcome::Error(Errno::EINVAL));
            },
        };
        let end: u64 = if self.size_bytes <= capacity {
            self.size_bytes
        } else {
            capacity
        };
        if offset >= end {
            return TransferStart::Finished(StepOutcome::Done(0));
        }
        let left: u64 = end - offset;
        let effective: usize = if len as u64 <= left {
            len
        } else {
            left as usize
        };
        TransferStart::Run(RangeCursor::new(PageBackedIoKind::Read, offset, effective))
    }

    /// Start to write `len` bytes at `offset`.
    pub fn begin_write(&self, offset: u64, len: usize) -> (start: TransferStart)
        ensures
            start == self@.write_start(offset, len),
            start matches TransferStart::Run(cursor) ==> cursor.wf() && cursor.len > 0,
    {
        if len == 0 {
            return TransferStart::Finished(StepOutcome::Done(0));
        }
        if self.is_device() {
            return TransferStart::Finished(StepOutcome::Error(Errno::EINVAL));
        }
        let capacity: u64 = match self.byte_capacity() {
            Some(capacity) => capacity,
            None => {
                return TransferStart::Finished(StepOutcome::Error(Errno::EINVAL));
            },
        };
        let end: u64 = match offset.checked_add(len as u64) {
            Some(end) => end,
            None => {
                return TransferStart::Finished(StepOutcome::Error(Errno::EINVAL));
            },
        };
        if end > capacity {
            return TransferStart::Finished(StepOutcome::Error(Errno::EINVAL));
        }
        TransferStart::Run(RangeCursor::new(PageBackedIoKind::Write, offset, len))
    }

    /// Make the bytes that a write or copy at `offset` has brought visible.
    pub fn publish_progress(&mut self, offset: u64, advanced: usize)
        requires
            old(self).wf(),
            offset + advanced <= u64::MAX,
        ensures
            final(self).wf(),
            final(self)@ == old(self)@.with_progress(offset, advanced),
    {
        if advanced > 0 {
            self.grow_size_to(offset + advanced as u64);
        }
    }
}

/// Read `len` bytes at the file's offset. The answers to the access of each page
/// come in order; if they do not last, there is no outcome and the offset
/// stays, though the pages accessed so far have been. What is left for the
/// caller to do is added to `notes`. A caller that reclaims between the accesses
/// steps the range by its cursor.
pub fn step_read(
    pc: &mut PageContainer,
    of: &mut OpenFile,
    len: usize,
    replies: Vec<AccessReplies>,
    notes: &mut AccessNotes,
) -> (outcome: Option<StepOutcome<usize, ByteProgress>>)
    requires
        old(pc).wf(),
        answerable(old(pc)@, replies@),
    ensures
        final(pc).wf(),
        ({
            let ran = old(pc)@.read_step(old(of).offset, len, replies@, old(notes)@);
            &&& final(pc)@ == ran.view
            &&& final(notes)@ == ran.notes
            &&& match ran.end {
                None => outcome is None && *final(of) == *old(of),
                Some(end) => {
                    &&& outcome == Some(end.outcome)
                    &&& final(of).offset == old(of).offset + end.advanced
                },
            }
        }),
{
    match pc.begin_read(of.offset(), len) {
        TransferStart::Finished(outcome) => Some(outcome),
        TransferStart::Run(cursor) => {
            proof {
                cursor.lemma_run(pc@, notes@, replies@, 0);
            }
            match step_range(pc, cursor, replies, notes) {
                None => None,
                Some(end) => {
                    of.set_offset(of.offset() + end.advanced as u64);
                    Some(end.outcome)
                },
            }
        },
    }
}

/// Write `len` bytes at the file's offset, likewise. What was written becomes
/// visible with the outcome.
pub fn step_write(
    pc: &mut PageContainer,
    of: &mut OpenFile,
    len: usize,
    replies: Vec<AccessReplies>,
    notes: &mut AccessNotes,
) -> (outcome: Option<StepOutcome<usize, ByteProgress>>)
    requires
        old(pc).wf(),
        answerable(old(pc)@, replies@),
    ensures
        final(pc).wf(),
        ({
            let ran = old(pc)@.write_step(old(of).offset, len, replies@, old(notes)@);
            &&& final(pc)@ == ran.view
            &&& final(notes)@ == ran.notes
            &&& match ran.end {
                None => outcome is None && *final(of) == *old(of),
                Some(end) => {
                    &&& outcome == Some(end.outcome)
                    &&& final(of).offset == old(of).offset + end.advanced
                },
            }
        }),
{
    let start: u64 = of.offset();
    match pc.begin_write(start, len) {
        TransferStart::Finished(outcome) => Some(outcome),
        TransferStart::Run(cursor) => {
            proof {
                cursor.lemma_run(pc@, notes@, replies@, 0);
            }
            match step_range(pc, cursor, replies, notes) {
                None => None,
                Some(end) => {
                    pc.publish_progress(start, end.advanced);
                    of.set_offset(start + end.advanced as u64);
                    Some(end.outcome)
                },
            }
        },
    }
}

impl RangeCursor {
    /// A run never gets beyond its range, and reports what it transferred. It
    /// leaves the shape of the container alone.
    pub proof fn lemma_run(
        self,
        view: ContainerView,
        notes: NotesView,
        replies: Seq<AccessReplies>,
        i: nat,
    )
        requires
            self.wf(),
        ensures
            self.run(view, notes, replies, i).view.same_shape(view),
            self.run(view, notes, replies, i).end matches Some(end) ==> {
                &&& self.advanced <= end.advanced <= self.len
                &&& match end.outcome {
                    StepOutcome::Done(n) => n == end.advanced,
                    StepOutcome::Continue { .. } => false,
                    StepOutcome::Yield { progress, .. } => progress.0 == end.advanced
                        && end.advanced < self.len,
                    StepOutcome::Error(_) => end.advanced == 0,
                }
            },
        decreases replies.len() - i,
    {
        if self.advanced < self.len && i < replies.len() {
            let page = self.next_chunk().page;
            let one = view.access_whole(page, self.access_spec(), replies[i as int], notes);
            lemma_access_frame(view, page, self.access_spec(), replies[i as int], notes);
            if range_stop(self.advanced, one.outcome) is None {
                self.lemma_step();
                self.advance_spec().lemma_run(one.view, one.notes, replies, i + 1);
            }
        }
    }

    /// One part of a range lies in one page and does not leave the range.
    pub proof fn lemma_step(self)
        requires
            self.wf(),
        ensures
            self.advance_spec().wf(),
            self.advance_spec().advanced == self.advanced + self.next_chunk().len,
            self.advanced < self.len ==> self.next_chunk().len > 0,
    {
    }
}

/// Bytes to be copied from one page to another.
#[derive(Clone, Copy, Debug, PartialEq, Eq, Structural)]
pub struct CopyChunk {
    pub in_page: PageIndex,
    pub in_within: usize,
    pub out_page: PageIndex,
    pub out_within: usize,
    pub len: usize,
}

/// A copy on its way: `advanced` of the `len` bytes are done.
#[derive(Clone, Copy, Debug, PartialEq, Eq, Structural)]
pub struct CopyCursor {
    pub in_offset: u64,
    pub out_offset: u64,
    pub len: usize,
    pub advanced: usize,
}

/// How a copy stops at the outcome of a page access, if it does.
pub open spec fn copy_stop(advanced: usize, page: PageOutcome) -> Option<
    StepOutcome<usize, ByteProgress>,
> {
    match page {
        StepOutcome::Done(_) => None,
        StepOutcome::Continue { .. } => Some(cut_short(advanced, Errno::EAGAIN)),
        StepOutcome::Yield { shape, .. } => Some(wait_short(advanced, shape)),
        StepOutcome::Error(errno) => Some(cut_short(advanced, errno)),
    }
}

/// The page that lets a copy go on, or how the copy stops.
fn halt_copy(advanced: usize, page: PageOutcome) -> (r: Result<
    MaterializedPage,
    StepOutcome<usize, ByteProgress>,
>)
    ensures
        r == match copy_stop(advanced, page) {
            Some(outcome) => Err::<MaterializedPage, StepOutcome<usize, ByteProgress>>(outcome),
            None => Ok(page->Done_0),
        },
{
    match page {
        StepOutcome::Done(page) => Ok(page),
        StepOutcome::Continue { .. } => Err(cut(advanced, Errno::EAGAIN)),
        StepOutcome::Yield { shape, .. } => Err(wait_after(advanced, &shape)),
        StepOutcome::Error(errno) => Err(cut(advanced, errno)),
    }
}

/// What the outside world answers while one part of a copy is brought. Each is
/// looked at only if the one before let the copy go on.
#[derive(Debug)]
pub struct CopyReplies {
    pub input: AccessReplies,
    pub output: AccessReplies,
    /// Whether both frames can be addressed.
    pub mapped: bool,
}

/// Bytes that go from one frame to another.
#[derive(Clone, Copy, Debug, PartialEq, Eq, Structural)]
pub struct CopyMove {
    pub chunk: CopyChunk,
    pub from: Ppn,
    pub to: Ppn,
}

/// How a copy ended.
#[derive(Debug)]
pub struct CopyEnd {
    pub outcome: StepOutcome<usize, ByteProgress>,
    pub advanced: usize,
    /// The bytes that were copied, in order.
    pub moves: Vec<CopyMove>,
}

/// A copy between two containers, as far as the answers to its accesses go.
#[verifier::ext_equal]
pub struct CopyView {
    pub source: ContainerView,
    pub target: ContainerView,
    pub notes: NotesView,
    pub moves: Seq<CopyMove>,
    /// There is none while more answers are needed.
    pub end: Option<RangeEnd>,
}

/// How a copy starts.
#[derive(Debug)]
pub enum CopyStart {
    Finished(StepOutcome<usize, ByteProgress>),
    Run(CopyCursor),
}

/// The answers to the reads of a copy.
pub open spec fn copy_inputs(replies: Seq<CopyReplies>) -> Seq<AccessReplies> {
    replies.map_values(|one: CopyReplies| one.input)
}

/// The answers to the writes of a copy.
pub open spec fn copy_outputs(replies: Seq<CopyReplies>) -> Seq<AccessReplies> {
    replies.map_values(|one: CopyReplies| one.output)
}

impl CopyCursor {
    pub open spec fn wf(self) -> bool {
        &&& self.advanced <= self.len
        &&& self.in_offset + self.len <= u64::MAX
        &&& self.out_offset + self.len <= u64::MAX
    }

    /// The bytes to be copied next: as many as fit both pages.
    pub open spec fn next_chunk(self) -> CopyChunk {
        let left = self.len - self.advanced;
        let source = chunk_at(self.in_offset + self.advanced, left);
        let target = chunk_at(self.out_offset + self.advanced, left);
        CopyChunk {
            in_page: source.page,
            in_within: source.within,
            out_page: target.page,
            out_within: target.within,
            len: min_int(source.len as int, target.len as int) as usize,
        }
    }

    pub open spec fn advance_spec(self) -> Self {
        CopyCursor { advanced: (self.advanced + self.next_chunk().len) as usize, ..self }
    }

    pub open spec fn stopped(self, outcome: StepOutcome<usize, ByteProgress>) -> Option<RangeEnd> {
        Some(RangeEnd { outcome, advanced: self.advanced })
    }

    /// The rest of the copy, after `moves`: each part reads its page of the
    /// source and then writes its page of the target, which `replies` answer
    /// from index `i` on.
    pub open spec fn run(
        self,
        source: ContainerView,
        target: ContainerView,
        notes: NotesView,
        replies: Seq<CopyReplies>,
        i: nat,
        moves: Seq<CopyMove>,
    ) -> CopyView
        decreases replies.len() - i,
    {
        if self.advanced >= self.len {
            CopyView {
                source,
                target,
                notes,
                moves,
                end: self.stopped(StepOutcome::Done(self.advanced)),
            }
        } else if i >= replies.len() {
            CopyView { source, target, notes, moves, end: None }
        } else {
            let chunk = self.next_chunk();
            let one = replies[i as int];
            let read = source.access_whole(
                chunk.in_page,
                MaterializeAccess::Read,
                one.input,
                notes,
            );
            match copy_stop(self.advanced, read.outcome) {
                Some(outcome) => CopyView {
                    source: read.view,
                    target,
                    notes: read.notes,
                    moves,
                    end: self.stopped(outcome),
                },
                None => {
                    let written = target.access_whole(
                        chunk.out_page,
                        MaterializeAccess::Write,
                        one.output,
                        read.notes,
                    );
                    match copy_stop(self.advanced, written.outcome) {
                        Some(outcome) => CopyView {
                            source: read.view,
                            target: written.view,
                            notes: written.notes,
                            moves,
                            end: self.stopped(outcome),
                        },
                        None => if one.mapped {
                            self.advance_spec().run(
                                read.view,
                                written.view,
                                written.notes,
                                replies,
                                i + 1,
                                moves.push(
                                    CopyMove {
                                        chunk,
                                        from: read.outcome->Done_0.ppn,
                                        to: written.outcome->Done_0.ppn,
                                    },
                                ),
                            )
                        } else {
                            CopyView {
                                source: read.view,
                                target: written.view,
                                notes: written.notes,
                                moves,
                                end: self.stopped(cut_short(self.advanced, Errno::EIO)),
                            }
                        },
                    }
                },
            }
        }
    }

    /// The bytes to be copied next, if any are left.
    pub fn next(&self) -> (chunk: Option<CopyChunk>)
        requires
            self.wf(),
        ensures
            match chunk {
                Some(chunk) => {
                    &&& self.advanced < self.len
                    &&& chunk == self.next_chunk()
                    &&& 0 < chunk.len <= self.len - self.advanced
                    &&& chunk.in_within + chunk.len <= PAGE_BYTES
                    &&& chunk.out_within + chunk.len <= PAGE_BYTES
                    &&& chunk.in_page.0 * PAGE_BYTES + chunk.in_within == self.in_offset
                        + self.advanced
                    &&& chunk.out_page.0 * PAGE_BYTES + chunk.out_within == self.out_offset
                        + self.advanced
                },
                None => self.advanced == self.len,
            },
    {
        if self.advanced >= self.len {
            return None;
        }
        Some(self.chunk())
    }

    /// Note that the next part has been copied, if both frames could be
    /// addressed. The copy goes on while there is no outcome.
    pub fn copied(&mut self, mapped: bool) -> (end: Option<StepOutcome<usize, ByteProgress>>)
        requires
            old(self).wf(),
            old(self).advanced < old(self).len,
        ensures
            final(self).wf(),
            if mapped {
                &&& *final(self) == old(self).advance_spec()
                &&& final(self).advanced > old(self).advanced
                &&& end == if final(self).advanced == final(self).len {
                    Some(StepOutcome::<usize, ByteProgress>::Done(final(self).advanced))
                } else {
                    None
                }
            } else {
                *final(self) == *old(self) && end == Some(
                    cut_short(old(self).advanced, Errno::EIO),
                )
            },
    {
        if !mapped {
            return Some(cut(self.advanced, Errno::EIO));
        }
        match self.next() {
            Some(chunk) => {
                self.advanced = self.advanced + chunk.len;
            },
            None => {},
        }
        if self.advanced == self.len {
            Some(StepOutcome::Done(self.advanced))
        } else {
            None
        }
    }
}

/// How a copy of `len` bytes starts: it has to fit the target whole, and is cut
/// at the end of the source.
pub open spec fn copy_start(
    source: ContainerView,
    in_offset: u64,
    target: ContainerView,
    out_offset: u64,
    len: usize,
) -> CopyStart {
    if len == 0 {
        CopyStart::Finished(StepOutcome::Done(0))
    } else if target.kind is Device || source.capacity() is None || target.capacity() is None
        || out_offset + len > target.capacity()->Some_0 {
        CopyStart::Finished(StepOutcome::Error(Errno::EINVAL))
    } else if in_offset >= source.readable_end() {
        CopyStart::Finished(StepOutcome::Done(0))
    } else {
        CopyStart::Run(
            CopyCursor {
                in_offset,
                out_offset,
                len: min_int(len as int, source.readable_end() - in_offset) as usize,
                advanced: 0,
            },
        )
    }
}

/// A copy whose page accesses `replies` answer. What it brought becomes visible
/// in the target at its end.
pub open spec fn copy_step(
    source: ContainerView,
    in_offset: u64,
    target: ContainerView,
    out_offset: u64,
    len: usize,
    replies: Seq<CopyReplies>,
    notes: NotesView,
) -> CopyView {
    match copy_start(source, in_offset, target, out_offset, len) {
        CopyStart::Finished(outcome) => CopyView {
            source,
            target,
            notes,
            moves: Seq::empty(),
            end: Some(RangeEnd { outcome, advanced: 0 }),
        },
        CopyStart::Run(cursor) => {
            let ran = cursor.run(source, target, notes, replies, 0, Seq::empty());
            match ran.end {
                Some(end) => CopyView {
                    target: ran.target.with_progress(out_offset, end.advanced),
                    ..ran
                },
                None => ran,
            }
        },
    }
}

/// Start to copy `len` bytes from `in_pc` to `out_pc`.
pub fn begin_copy(
    in_pc: &PageContainer,
    in_offset: u64,
    out_pc: &PageContainer,
    out_offset: u64,
    len: usize,
) -> (start: CopyStart)
    ensures
        start == copy_start(in_pc@, in_offset, out_pc@, out_offset, len),
        start matches CopyStart::Run(cursor) ==> cursor.wf() && cursor.len > 0,
{
    match out_pc.begin_write(out_offset, len) {
        TransferStart::Finished(outcome) => {
            return CopyStart::Finished(outcome);
        },
        TransferStart::Run(_) => {},
    }
    match in_pc.begin_read(in_offset, len) {
        TransferStart::Finished(outcome) => CopyStart::Finished(outcome),
        TransferStart::Run(range) => CopyStart::Run(
            CopyCursor { in_offset, out_offset, len: range.len, advanced: 0 },
        ),
    }
}

/// Bring the pages of a copy, part by part.
fn copy_range(
    in_pc: &mut PageContainer,
    out_pc: &mut PageContainer,
    range: CopyCursor,
    replies: Vec<CopyReplies>,
    notes: &mut AccessNotes,
    moves: &mut Vec<CopyMove>,
) -> (end: Option<RangeEnd>)
    requires
        range.wf(),
        old(in_pc).wf(),
        old(out_pc).wf(),
        answerable(old(in_pc)@, copy_inputs(replies@)),
        answerable(old(out_pc)@, copy_outputs(replies@)),
    ensures
        final(in_pc).wf(),
        final(out_pc).wf(),
        (CopyView {
            source: final(in_pc)@,
            target: final(out_pc)@,
            notes: final(notes)@,
            moves: final(moves)@,
            end,
        }) == range.run(old(in_pc)@, old(out_pc)@, old(notes)@, replies@, 0, old(moves)@),
{
    let ghost source = in_pc@;
    let ghost target = out_pc@;
    let ghost all = replies@;
    let ghost inputs = copy_inputs(all);
    let ghost outputs = copy_outputs(all);
    let mut rest = replies;
    let mut cursor = range;
    let ghost mut i: nat = 0;
    assert(rest@ =~= all.skip(0));
    while cursor.advanced < cursor.len
        invariant
            cursor.wf(),
            in_pc.wf(),
            out_pc.wf(),
            source == old(in_pc)@,
            target == old(out_pc)@,
            all == replies@,
            inputs == copy_inputs(all),
            outputs == copy_outputs(all),
            answerable(source, inputs),
            answerable(target, outputs),
            i + rest@.len() == all.len(),
            rest@ == all.skip(i as int),
            in_pc@.block.next_id <= source.block.next_id + replies_bios(inputs, i),
            out_pc@.block.next_id <= target.block.next_id + replies_bios(outputs, i),
            range.run(source, target, old(notes)@, all, 0, old(moves)@) == cursor.run(
                in_pc@,
                out_pc@,
                notes@,
                all,
                i,
                moves@,
            ),
        decreases rest@.len(),
    {
        let chunk = match cursor.next() {
            Some(chunk) => chunk,
            None => {
                return None;
            },
        };
        if rest.len() == 0 {
            return None;
        }
        let CopyReplies { input, output, mapped } = rest.remove(0);
        assert(rest@ =~= all.skip((i + 1) as int));
        proof {
            assert(input == inputs[i as int]);
            assert(output == outputs[i as int]);
            lemma_replies_bios(inputs, i + 1, all.len());
            lemma_replies_bios(outputs, i + 1, all.len());
            lemma_access_frame(in_pc@, chunk.in_page, MaterializeAccess::Read, input, notes@);
        }
        let read = in_pc.materialize_page_whole(
            chunk.in_page,
            MaterializeAccess::Read,
            input,
            notes,
        );
        let from = match halt_copy(cursor.advanced, read) {
            Err(outcome) => {
                return Some(RangeEnd { outcome, advanced: cursor.advanced });
            },
            Ok(page) => page.ppn,
        };
        proof {
            lemma_access_frame(out_pc@, chunk.out_page, MaterializeAccess::Write, output, notes@);
        }
        let written = out_pc.materialize_page_whole(
            chunk.out_page,
            MaterializeAccess::Write,
            output,
            notes,
        );
        let to = match halt_copy(cursor.advanced, written) {
            Err(outcome) => {
                return Some(RangeEnd { outcome, advanced: cursor.advanced });
            },
            Ok(page) => page.ppn,
        };
        if !mapped {
            let outcome = cut(cursor.advanced, Errno::EIO);
            return Some(RangeEnd { outcome, advanced: cursor.advanced });
        }
        moves.push(CopyMove { chunk, from, to });
        cursor.advanced = cursor.advanced + chunk.len;
        proof {
            i = i + 1;
        }
    }
    Some(RangeEnd { outcome: StepOutcome::Done(cursor.advanced), advanced: cursor.advanced })
}

/// Copy up to `len` bytes from `in_pc` to `out_pc`. The answers to the accesses
/// of each part come in order; if they do not last, there is no outcome and
/// nothing becomes visible, though the pages accessed so far have been. What is
/// left for the caller to do is added to `notes`.
pub fn step_copy_file_range(
    in_pc: &mut PageContainer,
    in_offset: u64,
    out_pc: &mut PageContainer,
    out_offset: u64,
    len: usize,
    replies: Vec<CopyReplies>,
    notes: &mut AccessNotes,
) -> (end: Option<CopyEnd>)
    requires
        old(in_pc).wf(),
        old(out_pc).wf(),
        answerable(old(in_pc)@, copy_inputs(replies@)),
        answerable(old(out_pc)@, copy_outputs(replies@)),
    ensures
        final(in_pc).wf(),
        final(out_pc).wf(),
        ({
            let ran = copy_step(
                old(in_pc)@,
                in_offset,
                old(out_pc)@,
                out_offset,
                len,
                replies@,
                old(notes)@,
            );
            &&& final(in_pc)@ == ran.source
            &&& final(out_pc)@ == ran.target
            &&& final(notes)@ == ran.notes
            &&& match ran.end {
                None => end is None,
                Some(last) => end matches Some(end) && end.outcome == last.outcome && end.advanced
                    == last.advanced && end.moves@ == ran.moves,
            }
        }),
{
    let start = match begin_copy(in_pc, in_offset, out_pc, out_offset, len) {
        CopyStart::Finished(outcome) => {
            return Some(CopyEnd { outcome, advanced: 0, moves: Vec::new() });
        },
        CopyStart::Run(cursor) => cursor,
    };
    let mut moves: Vec<CopyMove> = Vec::new();
    proof {
        lemma_copy_run(start, in_pc@, out_pc@, notes@, replies@, 0, moves@);
        assert(moves@ =~= Seq::<CopyMove>::empty());
    }
    match copy_range(in_pc, out_pc, start, replies, notes, &mut moves) {
        None => None,
        Some(end) => {
            out_pc.publish_progress(out_offset, end.advanced);
            Some(CopyEnd { outcome: end.outcome, advanced: end.advanced, moves })
        },
    }
}

/// A copy never gets beyond its range, reports what it copied, and leaves the
/// shape of both containers alone.
pub proof fn lemma_copy_run(
    cursor: CopyCursor,
    source: ContainerView,
    target: ContainerView,
    notes: NotesView,
    replies: Seq<CopyReplies>,
    i: nat,
    moves: Seq<CopyMove>,
)
    requires
        cursor.wf(),
    ensures
        ({
            let ran = cursor.run(source, target, notes, replies, i, moves);
            &&& ran.source.same_shape(source)
            &&& ran.target.same_shape(target)
            &&& ran.end matches Some(end) ==> {
                &&& cursor.advanced <= end.advanced <= cursor.len
                &&& end.outcome is Error ==> end.advanced == 0
                &&& end.outcome matches StepOutcome::Done(n) ==> n == end.advanced
            }
        }),
    decreases replies.len() - i,
{
    if cursor.advanced < cursor.len && i < replies.len() {
        let chunk = cursor.next_chunk();
        let one = replies[i as int];
        let read = source.access_whole(chunk.in_page, MaterializeAccess::Read, one.input, notes);
        lemma_access_frame(source, chunk.in_page, MaterializeAccess::Read, one.input, notes);
        if copy_stop(cursor.advanced, read.outcome) is None {
            let written = target.access_whole(
                chunk.out_page,
                MaterializeAccess::Write,
                one.output,
                read.notes,
            );
            lemma_access_frame(
                target,
                chunk.out_page,
                MaterializeAccess::Write,
                one.output,
                read.notes,
            );
            if copy_stop(cursor.advanced, written.outcome) is None && one.mapped {
                lemma_copy_run(
                    cursor.advance_spec(),
                    read.view,
                    written.view,
                    written.notes,
                    replies,
                    i + 1,
                    moves.push(
                        CopyMove {
                            chunk,
                            from: read.outcome->Done_0.ppn,
                            to: written.outcome->Done_0.ppn,
                        },
                    ),
                );
            }
        }
    }
}

/// A copy within one container, as far as the answers to its accesses go.
#[verifier::ext_equal]
pub struct CopyWithinView {
    pub view: ContainerView,
    pub notes: NotesView,
    pub moves: Seq<CopyMove>,
    /// There is none while more answers are needed.
    pub end: Option<RangeEnd>,
}

/// The transfers that the accesses of the first `count` parts may queue.
pub open spec fn copy_bios(replies: Seq<CopyReplies>, count: nat) -> nat
    decreases count,
{
    if count == 0 {
        0
    } else {
        copy_bios(replies, (count - 1) as nat) + replies[count - 1].input.bios()
            + replies[count - 1].output.bios()
    }
}

/// Whether one container can take both sides of the copy that `replies` answer.
pub open spec fn copy_answerable(view: ContainerView, replies: Seq<CopyReplies>) -> bool {
    &&& forall|i: int|
        0 <= i < replies.len() ==> (#[trigger] replies[i]).input.wf() && replies[i].output.wf()
    &&& view.block.next_id + copy_bios(replies, replies.len()) <= u64::MAX
}

proof fn lemma_copy_bios(replies: Seq<CopyReplies>, few: nat, many: nat)
    requires
        few <= many,
    ensures
        copy_bios(replies, few) <= copy_bios(replies, many),
    decreases many,
{
    if few < many {
        lemma_copy_bios(replies, few, (many - 1) as nat);
    }
}

impl CopyCursor {
    /// The rest of a copy within one container, after `moves`: each part reads
    /// its page and then writes the other, which `replies` answer from index `i`
    /// on.
    pub open spec fn run_within(
        self,
        view: ContainerView,
        notes: NotesView,
        replies: Seq<CopyReplies>,
        i: nat,
        moves: Seq<CopyMove>,
    ) -> CopyWithinView
        decreases replies.len() - i,
    {
        if self.advanced >= self.len {
            CopyWithinView {
                view,
                notes,
                moves,
                end: self.stopped(StepOutcome::Done(self.advanced)),
            }
        } else if i >= replies.len() {
            CopyWithinView { view, notes, moves, end: None }
        } else {
            let chunk = self.next_chunk();
            let one = replies[i as int];
            let read = view.access_whole(chunk.in_page, MaterializeAccess::Read, one.input, notes);
            match copy_stop(self.advanced, read.outcome) {
                Some(outcome) => CopyWithinView {
                    view: read.view,
                    notes: read.notes,
                    moves,
                    end: self.stopped(outcome),
                },
                None => {
                    let written = read.view.access_whole(
                        chunk.out_page,
                        MaterializeAccess::Write,
                        one.output,
                        read.notes,
                    );
                    match copy_stop(self.advanced, written.outcome) {
                        Some(outcome) => CopyWithinView {
                            view: written.view,
                            notes: written.notes,
                            moves,
                            end: self.stopped(outcome),
                        },
                        None => if one.mapped {
                            self.advance_spec().run_within(
                                written.view,
                                written.notes,
                                replies,
                                i + 1,
                                moves.push(
                                    CopyMove {
                                        chunk,
                                        from: read.outcome->Done_0.ppn,
                                        to: written.outcome->Done_0.ppn,
                                    },
                                ),
                            )
                        } else {
                            CopyWithinView {
                                view: written.view,
                                notes: written.notes,
                                moves,
                                end: self.stopped(cut_short(self.advanced, Errno::EIO)),
                            }
                        },
                    }
                },
            }
        }
    }

    /// A copy within one container never gets beyond its range, reports what it
    /// copied, and leaves the shape of the container alone.
    pub proof fn lemma_run_within(
        self,
        view: ContainerView,
        notes: NotesView,
        replies: Seq<CopyReplies>,
        i: nat,
        moves: Seq<CopyMove>,
    )
        requires
            self.wf(),
        ensures
            ({
                let ran = self.run_within(view, notes, replies, i, moves);
                &&& ran.view.same_shape(view)
                &&& ran.end matches Some(end) ==> {
                    &&& self.advanced <= end.advanced <= self.len
                    &&& end.outcome is Error ==> end.advanced == 0
                    &&& end.outcome matches StepOutcome::Done(n) ==> n == end.advanced
                }
            }),
        decreases replies.len() - i,
    {
        if self.advanced < self.len && i < replies.len() {
            let chunk = self.next_chunk();
            let one = replies[i as int];
            let read = view.access_whole(chunk.in_page, MaterializeAccess::Read, one.input, notes);
            lemma_access_frame(view, chunk.in_page, MaterializeAccess::Read, one.input, notes);
            if copy_stop(self.advanced, read.outcome) is None {
                let written = read.view.access_whole(
                    chunk.out_page,
                    MaterializeAccess::Write,
                    one.output,
                    read.notes,
                );
                lemma_access_frame(
                    read.view,
                    chunk.out_page,
                    MaterializeAccess::Write,
                    one.output,
                    read.notes,
                );
                if copy_stop(self.advanced, written.outcome) is None && one.mapped {
                    self.advance_spec().lemma_run_within(
                        written.view,
                        written.notes,
                        replies,
                        i + 1,
                        moves.push(
                            CopyMove {
                                chunk,
                                from: read.outcome->Done_0.ppn,
                                to: written.outcome->Done_0.ppn,
                            },
                        ),
                    );
                }
            }
        }
    }
}

impl ContainerView {
    /// A copy within the container whose page accesses `replies` answer. What it
    /// brought becomes visible at its end.
    pub open spec fn copy_within(
        self,
        in_offset: u64,
        out_offset: u64,
        len: usize,
        replies: Seq<CopyReplies>,
        notes: NotesView,
    ) -> CopyWithinView {
        match copy_start(self, in_offset, self, out_offset, len) {
            CopyStart::Finished(outcome) => CopyWithinView {
                view: self,
                notes,
                moves: Seq::empty(),
                end: Some(RangeEnd { outcome, advanced: 0 }),
            },
            CopyStart::Run(cursor) => {
                let ran = cursor.run_within(self, notes, replies, 0, Seq::empty());
                match ran.end {
                    Some(end) => CopyWithinView {
                        view: ran.view.with_progress(out_offset, end.advanced),
                        ..ran
                    },
                    None => ran,
                }
            },
        }
    }
}

/// Bring the pages of a copy within one container, part by part.
fn copy_range_within(
    pc: &mut PageContainer,
    range: CopyCursor,
    replies: Vec<CopyReplies>,
    notes: &mut AccessNotes,
    moves: &mut Vec<CopyMove>,
) -> (end: Option<RangeEnd>)
    requires
        range.wf(),
        old(pc).wf(),
        copy_answerable(old(pc)@, replies@),
    ensures
        final(pc).wf(),
        (CopyWithinView {
            view: final(pc)@,
            notes: final(notes)@,
            moves: final(moves)@,
            end,
        }) == range.run_within(old(pc)@, old(notes)@, replies@, 0, old(moves)@),
{
    let ghost before = pc@;
    let ghost all = replies@;
    let mut rest = replies;
    let mut cursor = range;
    let ghost mut i: nat = 0;
    assert(rest@ =~= all.skip(0));
    while cursor.advanced < cursor.len
        invariant
            cursor.wf(),
            pc.wf(),
            before == old(pc)@,
            all == replies@,
            copy_answerable(before, all),
            i + rest@.len() == all.len(),
            rest@ == all.skip(i as int),
            pc@.block.next_id <= before.block.next_id + copy_bios(all, i),
            range.run_within(before, old(notes)@, all, 0, old(moves)@) == cursor.run_within(
                pc@,
                notes@,
                all,
                i,
                moves@,
            ),
        decreases rest@.len(),
    {
        let chunk = cursor.chunk();
        if rest.len() == 0 {
            return None;
        }
        assert(rest@[0] == all[i as int]);
        let CopyReplies { input, output, mapped } = rest.remove(0);
        assert(rest@ =~= all.skip((i + 1) as int));
        proof {
            lemma_copy_bios(all, i + 1, all.len());
            lemma_access_frame(pc@, chunk.in_page, MaterializeAccess::Read, input, notes@);
        }
        let read = pc.materialize_page_whole(chunk.in_page, MaterializeAccess::Read, input, notes);
        let from = match halt_copy(cursor.advanced, read) {
            Err(outcome) => {
                return Some(RangeEnd { outcome, advanced: cursor.advanced });
            },
            Ok(page) => page.ppn,
        };
        proof {
            lemma_access_frame(pc@, chunk.out_page, MaterializeAccess::Write, output, notes@);
        }
        let written = pc.materialize_page_whole(
            chunk.out_page,
            MaterializeAccess::Write,
            output,
            notes,
        );
        let to = match halt_copy(cursor.advanced, written) {
            Err(outcome) => {
                return Some(RangeEnd { outcome, advanced: cursor.advanced });
            },
            Ok(page) => page.ppn,
        };
        if !mapped {
            let outcome = cut(cursor.advanced, Errno::EIO);
            return Some(RangeEnd { outcome, advanced: cursor.advanced });
        }
        moves.push(CopyMove { chunk, from, to });
        cursor.advanced = cursor.advanced + chunk.len;
        proof {
            i = i + 1;
        }
    }
    Some(RangeEnd { outcome: StepOutcome::Done(cursor.advanced), advanced: cursor.advanced })
}

/// Copy up to `len` bytes from one place of `pc` to another, as between two
/// containers.
pub fn step_copy_within_file(
    pc: &mut PageContainer,
    in_offset: u64,
    out_offset: u64,
    len: usize,
    replies: Vec<CopyReplies>,
    notes: &mut AccessNotes,
) -> (end: Option<CopyEnd>)
    requires
        old(pc).wf(),
        copy_answerable(old(pc)@, replies@),
    ensures
        final(pc).wf(),
        ({
            let ran = old(pc)@.copy_within(in_offset, out_offset, len, replies@, old(notes)@);
            &&& final(pc)@ == ran.view
            &&& final(notes)@ == ran.notes
            &&& match ran.end {
                None => end is None,
                Some(last) => end matches Some(end) && end.outcome == last.outcome && end.advanced
                    == last.advanced && end.moves@ == ran.moves,
            }
        }),
{
    let start = match begin_copy(pc, in_offset, pc, out_offset, len) {
        CopyStart::Finished(outcome) => {
            return Some(CopyEnd { outcome, advanced: 0, moves: Vec::new() });
        },
        CopyStart::Run(cursor) => cursor,
    };
    let mut moves: Vec<CopyMove> = Vec::new();
    proof {
        start.lemma_run_within(pc@, notes@, replies@, 0, moves@);
        assert(moves@ =~= Seq::<CopyMove>::empty());
    }
    match copy_range_within(pc, start, replies, notes, &mut moves) {
        None => None,
        Some(end) => {
            pc.publish_progress(out_offset, end.advanced);
            Some(CopyEnd { outcome: end.outcome, advanced: end.advanced, moves })
        },
    }
}

/// How a range stands after a step of a page access.
#[derive(Debug)]
pub enum RangeTurn {
    /// The next page comes up.
    Going,
    Ended(StepOutcome<usize, ByteProgress>),
    /// The access to this page goes on outside.
    Access(AccessStep),
}

/// A step of a page access made for a range.
#[derive(Debug)]
pub struct RangeStep {
    pub turn: RangeTurn,
    pub notify: Option<u64>,
    pub kick_block: bool,
}

impl RangeCursor {
    /// The range after a page came out as `page`, and how it stands.
    pub open spec fn applied(self, page: PageOutcome) -> (Self, RangeTurn) {
        match range_stop(self.advanced, page) {
            Some(outcome) => (self, RangeTurn::Ended(outcome)),
            None => {
                let next = self.advance_spec();
                (
                    next,
                    if next.advanced == next.len {
                        RangeTurn::Ended(StepOutcome::Done(next.advanced))
                    } else {
                        RangeTurn::Going
                    },
                )
            },
        }
    }

    /// The range after a step of the access to its page.
    pub open spec fn turned(self, turn: AccessTurn) -> (Self, RangeStep) {
        let (next, stands) = match turn.step {
            AccessStep::Finished(page) => self.applied(page),
            other => (self, RangeTurn::Access(other)),
        };
        (next, RangeStep { turn: stands, notify: turn.notify, kick_block: turn.kick_block })
    }

    fn settle(&mut self, turn: AccessTurn) -> (step: RangeStep)
        requires
            old(self).wf(),
            old(self).advanced < old(self).len,
        ensures
            final(self).wf(),
            (*final(self), step) == old(self).turned(turn),
    {
        let AccessTurn { step, notify, kick_block } = turn;
        match step {
            AccessStep::Finished(outcome) => {
                let turn = match self.apply(&outcome) {
                    Some(end) => RangeTurn::Ended(end),
                    None => RangeTurn::Going,
                };
                RangeStep { turn, notify, kick_block }
            },
            other => RangeStep { turn: RangeTurn::Access(other), notify, kick_block },
        }
    }

    /// Begin the access to the next page of the range: for writing, if the
    /// range is written.
    pub fn step_page(&mut self, pc: &mut PageContainer, answers: AccessAnswers) -> (step: RangeStep)
        requires
            old(self).wf(),
            old(self).advanced < old(self).len,
            old(pc).wf(),
            answers.wf(),
        ensures
            final(self).wf(),
            final(pc).wf(),
            ({
                let (view, turn) = old(pc)@.access_page(
                    old(self).next_chunk().page,
                    old(self).access_spec(),
                    answers,
                );
                final(pc)@ == view && (*final(self), step) == old(self).turned(turn)
            }),
    {
        let page = chunk_of(self.offset(), self.len - self.advanced).page;
        let turn = pc.materialize_page(page, self.access(), answers);
        self.settle(turn)
    }

    /// Go on with the access to the next page of the range, after `event`.
    pub fn resume_page(&mut self, pc: &mut PageContainer, event: AccessEvent) -> (step: RangeStep)
        requires
            old(self).wf(),
            old(self).advanced < old(self).len,
            old(pc).wf(),
            old(pc)@.kind is File,
            event.wf(),
        ensures
            final(self).wf(),
            final(pc).wf(),
            ({
                let (view, turn) = old(pc)@.access_event(
                    old(self).next_chunk().page,
                    old(self).access_spec(),
                    event,
                );
                final(pc)@ == view && (*final(self), step) == old(self).turned(turn)
            }),
    {
        let page = chunk_of(self.offset(), self.len - self.advanced).page;
        let turn = pc.resume_access(page, self.access(), event);
        self.settle(turn)
    }
}

/// How one side of a copy stands after a step of its page access.
#[derive(Debug)]
pub enum CopyTurn {
    /// The page is there.
    Ready(MaterializedPage),
    Ended(StepOutcome<usize, ByteProgress>),
    /// The access to this page goes on outside.
    Access(AccessStep),
}

/// A step of a page access made for a copy.
#[derive(Debug)]
pub struct CopyStep {
    pub turn: CopyTurn,
    pub notify: Option<u64>,
    pub kick_block: bool,
}

/// The first steps for both sides of one part of a copy. The target is not
/// accessed before the page of the source is there.
#[derive(Debug)]
pub struct CopySteps {
    pub source: CopyStep,
    pub target: Option<CopyStep>,
}

impl CopyCursor {
    /// How a side stands after a step of its page access.
    pub open spec fn turned(self, turn: AccessTurn) -> CopyStep {
        CopyStep {
            turn: match turn.step {
                AccessStep::Finished(page) => match copy_stop(self.advanced, page) {
                    Some(outcome) => CopyTurn::Ended(outcome),
                    None => CopyTurn::Ready(page->Done_0),
                },
                other => CopyTurn::Access(other),
            },
            notify: turn.notify,
            kick_block: turn.kick_block,
        }
    }

    fn settle(&self, turn: AccessTurn) -> (step: CopyStep)
        ensures
            step == self.turned(turn),
    {
        let AccessTurn { step, notify, kick_block } = turn;
        let turn = match step {
            AccessStep::Finished(page) => match halt_copy(self.advanced, page) {
                Ok(page) => CopyTurn::Ready(page),
                Err(outcome) => CopyTurn::Ended(outcome),
            },
            other => CopyTurn::Access(other),
        };
        CopyStep { turn, notify, kick_block }
    }

    fn chunk(&self) -> (chunk: CopyChunk)
        requires
            self.wf(),
            self.advanced < self.len,
        ensures
            chunk == self.next_chunk(),
    {
        let left: usize = self.len - self.advanced;
        let source = chunk_of(self.in_offset + self.advanced as u64, left);
        let target = chunk_of(self.out_offset + self.advanced as u64, left);
        CopyChunk {
            in_page: source.page,
            in_within: source.within,
            out_page: target.page,
            out_within: target.within,
            len: if source.len <= target.len {
                source.len
            } else {
                target.len
            },
        }
    }

    /// Begin to read the page of the source that comes next.
    pub fn step_source(&self, in_pc: &mut PageContainer, answers: AccessAnswers) -> (step: CopyStep)
        requires
            self.wf(),
            self.advanced < self.len,
            old(in_pc).wf(),
            answers.wf(),
        ensures
            final(in_pc).wf(),
            ({
                let (view, turn) = old(in_pc)@.access_page(
                    self.next_chunk().in_page,
                    MaterializeAccess::Read,
                    answers,
                );
                final(in_pc)@ == view && step == self.turned(turn)
            }),
    {
        let turn = in_pc.materialize_page(self.chunk().in_page, MaterializeAccess::Read, answers);
        self.settle(turn)
    }

    /// Go on with reading the page of the source, after `event`.
    pub fn resume_source(&self, in_pc: &mut PageContainer, event: AccessEvent) -> (step: CopyStep)
        requires
            self.wf(),
            self.advanced < self.len,
            old(in_pc).wf(),
            old(in_pc)@.kind is File,
            event.wf(),
        ensures
            final(in_pc).wf(),
            ({
                let (view, turn) = old(in_pc)@.access_event(
                    self.next_chunk().in_page,
                    MaterializeAccess::Read,
                    event,
                );
                final(in_pc)@ == view && step == self.turned(turn)
            }),
    {
        let turn = in_pc.resume_access(self.chunk().in_page, MaterializeAccess::Read, event);
        self.settle(turn)
    }

    /// Begin to write the page of the target that comes next, once that of the
    /// source is there.
    pub fn step_target(&self, out_pc: &mut PageContainer, answers: AccessAnswers) -> (step: CopyStep)
        requires
            self.wf(),
            self.advanced < self.len,
            old(out_pc).wf(),
            answers.wf(),
        ensures
            final(out_pc).wf(),
            ({
                let (view, turn) = old(out_pc)@.access_page(
                    self.next_chunk().out_page,
                    MaterializeAccess::Write,
                    answers,
                );
                final(out_pc)@ == view && step == self.turned(turn)
            }),
    {
        let turn = out_pc.materialize_page(self.chunk().out_page, MaterializeAccess::Write, answers);
        self.settle(turn)
    }

    /// Go on with writing the page of the target, after `event`.
    pub fn resume_target(&self, out_pc: &mut PageContainer, event: AccessEvent) -> (step: CopyStep)
        requires
            self.wf(),
            self.advanced < self.len,
            old(out_pc).wf(),
            old(out_pc)@.kind is File,
            event.wf(),
        ensures
            final(out_pc).wf(),
            ({
                let (view, turn) = old(out_pc)@.access_event(
                    self.next_chunk().out_page,
                    MaterializeAccess::Write,
                    event,
                );
                final(out_pc)@ == view && step == self.turned(turn)
            }),
    {
        let turn = out_pc.resume_access(self.chunk().out_page, MaterializeAccess::Write, event);
        self.settle(turn)
    }

    /// Begin to read the page of the source that comes next, and to write that
    /// of the target if the page of the source is there at once.
    pub fn step_pages(
        &self,
        in_pc: &mut PageContainer,
        out_pc: &mut PageContainer,
        in_answers: AccessAnswers,
        out_answers: AccessAnswers,
    ) -> (steps: CopySteps)
        requires
            self.wf(),
            self.advanced < self.len,
            old(in_pc).wf(),
            old(out_pc).wf(),
            in_answers.wf(),
            out_answers.wf(),
        ensures
            final(in_pc).wf(),
            final(out_pc).wf(),
            ({
                let (source, read) = old(in_pc)@.access_page(
                    self.next_chunk().in_page,
                    MaterializeAccess::Read,
                    in_answers,
                );
                let (target, write) = old(out_pc)@.access_page(
                    self.next_chunk().out_page,
                    MaterializeAccess::Write,
                    out_answers,
                );
                &&& final(in_pc)@ == source
                &&& steps.source == self.turned(read)
                &&& if steps.source.turn is Ready {
                    final(out_pc)@ == target && steps.target == Some(self.turned(write))
                } else {
                    final(out_pc)@ == old(out_pc)@ && steps.target is None
                }
            }),
    {
        let source = self.step_source(in_pc, in_answers);
        let target = match &source.turn {
            CopyTurn::Ready(_) => Some(self.step_target(out_pc, out_answers)),
            _ => None,
        };
        CopySteps { source, target }
    }
}

/// A read that can be stepped again.
#[derive(Clone, Copy, Debug, PartialEq, Eq, Structural)]
pub struct ReadOp {
    pub len: usize,
}

impl ReadOp {
    pub fn step(
        &self,
        pc: &mut PageContainer,
        of: &mut OpenFile,
        replies: Vec<AccessReplies>,
        notes: &mut AccessNotes,
    ) -> (outcome: Option<StepOutcome<usize, ByteProgress>>)
        requires
            old(pc).wf(),
            answerable(old(pc)@, replies@),
        ensures
            final(pc).wf(),
            ({
                let ran = old(pc)@.read_step(old(of).offset, self.len, replies@, old(notes)@);
                &&& final(pc)@ == ran.view
                &&& final(notes)@ == ran.notes
                &&& match ran.end {
                    None => outcome is None && *final(of) == *old(of),
                    Some(end) => {
                        &&& outcome == Some(end.outcome)
                        &&& final(of).offset == old(of).offset + end.advanced
                    },
                }
            }),
    {
        step_read(pc, of, self.len, replies, notes)
    }
}

/// A write that can be stepped again.
#[derive(Clone, Copy, Debug, PartialEq, Eq, Structural)]
pub struct WriteOp {
    pub len: usize,
}

impl WriteOp {
    pub fn step(
        &self,
        pc: &mut PageContainer,
        of: &mut OpenFile,
        replies: Vec<AccessReplies>,
        notes: &mut AccessNotes,
    ) -> (outcome: Option<StepOutcome<usize, ByteProgress>>)
        requires
            old(pc).wf(),
            answerable(old(pc)@, replies@),
        ensures
            final(pc).wf(),
            ({
                let ran = old(pc)@.write_step(old(of).offset, self.len, replies@, old(notes)@);
                &&& final(pc)@ == ran.view
                &&& final(notes)@ == ran.notes
                &&& match ran.end {
                    None => outcome is None && *final(of) == *old(of),
                    Some(end) => {
                        &&& outcome == Some(end.outcome)
                        &&& final(of).offset == old(of).offset + end.advanced
                    },
                }
            }),
    {
        step_write(pc, of, self.len, replies, notes)
    }
}

/// A copy that can be stepped again.
#[derive(Clone, Copy, Debug, PartialEq, Eq, Structural)]
pub struct CopyFileRangeOp {
    pub in_offset: u64,
    pub out_offset: u64,
    pub len: usize,
}

impl CopyFileRangeOp {
    pub fn step(
        &self,
        in_pc: &mut PageContainer,
        out_pc: &mut PageContainer,
        replies: Vec<CopyReplies>,
        notes: &mut AccessNotes,
    ) -> (end: Option<CopyEnd>)
        requires
            old(in_pc).wf(),
            old(out_pc).wf(),
            answerable(old(in_pc)@, copy_inputs(replies@)),
            answerable(old(out_pc)@, copy_outputs(replies@)),
        ensures
            final(in_pc).wf(),
            final(out_pc).wf(),
            ({
                let ran = copy_step(
                    old(in_pc)@,
                    self.in_offset,
                    old(out_pc)@,
                    self.out_offset,
                    self.len,
                    replies@,
                    old(notes)@,
                );
                &&& final(in_pc)@ == ran.source
                &&& final(out_pc)@ == ran.target
                &&& final(notes)@ == ran.notes
                &&& match ran.end {
                    None => end is None,
                    Some(last) => end matches Some(end) && end.outcome == last.outcome
                        && end.advanced == last.advanced && end.moves@ == ran.moves,
                }
            }),
    {
        step_copy_file_range(
            in_pc,
            self.in_offset,
            out_pc,
            self.out_offset,
            self.len,
            replies,
            notes,
        )
    }
}

} // verus!
