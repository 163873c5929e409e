//! What reads, writes and copies do, page by page: which pages they access, in
//! which order, and how they end.

use crate::access_run::{AccessReplies, NotesView, PageOutcome};
use crate::container::{ContainerView, MaterializeAccess};
use crate::ids::{Errno, PageIndex, PAGE_BYTES};
use crate::step::{ByteProgress, StepOutcome, YieldShape};
use crate::transfer::{
    copy_start, copy_step, CopyChunk, CopyCursor, CopyMove, CopyReplies, RangeCursor,
};
use vstd::prelude::*;

verus! {

/// Whether `states` and `told` are the container and the notes before, between
/// and after accesses to `count` consecutive pages from `first` on, all done or to be
/// tried again at once.
pub open spec fn pages_done(
    first: int,
    access: MaterializeAccess,
    replies: Seq<AccessReplies>,
    states: Seq<ContainerView>,
    told: Seq<NotesView>,
    count: int,
) -> bool {
    &&& 0 <= count <= replies.len()
    &&& states.len() == count + 1
    &&& told.len() == count + 1
    &&& forall|j: int|
        0 <= j < count ==> {
            let one = (#[trigger] states[j]).access_whole(
                PageIndex((first + j) as u64),
                access,
                replies[j],
                told[j],
            );
            &&& one.outcome is Done || one.outcome is Continue
            &&& states[j + 1] == one.view
            &&& told[j + 1] == one.notes
        }
}

/// Bytes of a range at `offset` that lie before its page number `count`, the
/// first one being number zero.
pub open spec fn bytes_before(offset: int, len: int, count: int) -> int {
    let end = (offset / (PAGE_BYTES as int) + count) * PAGE_BYTES - offset;
    if count == 0 {
        0
    } else if end < len {
        end
    } else {
        len
    }
}

/// How a transfer ends that has done `advanced` bytes when the access to the
/// next page comes out as `page`, which is neither done nor to be tried again.
pub open spec fn broken_off(advanced: int, page: PageOutcome) -> StepOutcome<usize, ByteProgress> {
    match page {
        StepOutcome::Yield { shape: YieldShape::OnWaitSource { source, interests }, .. } => {
            StepOutcome::Yield {
                progress: ByteProgress(advanced as usize),
                shape: YieldShape::OnWaitSource { source, interests },
            }
        },
        StepOutcome::Error(errno) if advanced == 0 => StepOutcome::Error(errno),
        StepOutcome::Yield { .. } if advanced == 0 => StepOutcome::Error(Errno::EIO),
        StepOutcome::Continue { .. } if advanced == 0 => StepOutcome::Error(Errno::EAGAIN),
        _ => StepOutcome::Done(advanced as usize),
    }
}

proof fn lemma_bytes_before(offset: int, len: int, count: int)
    requires
        0 <= offset,
        0 < len,
        0 <= count <= (offset + len - 1) / (PAGE_BYTES as int) - offset / (PAGE_BYTES as int),
    ensures
        bytes_before(offset, len, count) < len,
        (offset + bytes_before(offset, len, count)) / (PAGE_BYTES as int) == offset / (
        PAGE_BYTES as int) + count,
        count > 0 ==> (offset + bytes_before(offset, len, count)) % (PAGE_BYTES as int) == 0,
        count > 0 ==> bytes_before(offset, len, count) > 0,
        bytes_before(offset, len, count + 1) - bytes_before(offset, len, count) == if len
            - bytes_before(offset, len, count) <= PAGE_BYTES - (offset + bytes_before(
            offset,
            len,
            count,
        )) % (PAGE_BYTES as int) {
            len - bytes_before(offset, len, count)
        } else {
            PAGE_BYTES - (offset + bytes_before(offset, len, count)) % (PAGE_BYTES as int)
        },
{
}

proof fn lemma_run_reaches(
    cursor: RangeCursor,
    replies: Seq<AccessReplies>,
    states: Seq<ContainerView>,
    told: Seq<NotesView>,
    count: int,
)
    requires
        cursor.wf(),
        cursor.advanced == 0,
        cursor.len > 0,
        0 <= count <= (cursor.start + cursor.len - 1) / (PAGE_BYTES as int) - cursor.start as int / (
        PAGE_BYTES as int) + 1,
        pages_done(
            cursor.start as int / (PAGE_BYTES as int),
            cursor.access_spec(),
            replies,
            states,
            told,
            count,
        ),
    ensures
        ({
            let advanced = bytes_before(cursor.start as int, cursor.len as int, count);
            &&& 0 <= advanced <= cursor.len
            &&& cursor.run(states[0], told[0], replies, 0) == (RangeCursor {
                advanced: advanced as usize,
                ..cursor
            }).run(states[count], told[count], replies, count as nat)
        }),
    decreases count,
{
    if count > 0 {
        let done = count - 1;
        let some = states.drop_last();
        let few = told.drop_last();
        assert(pages_done(
            cursor.start as int / (PAGE_BYTES as int),
            cursor.access_spec(),
            replies,
            some,
            few,
            done,
        )) by {
            assert forall|j: int| 0 <= j < done implies {
                let one = (#[trigger] some[j]).access_whole(
                    PageIndex((cursor.start as int / (PAGE_BYTES as int) + j) as u64),
                    cursor.access_spec(),
                    replies[j],
                    few[j],
                );
                &&& one.outcome is Done || one.outcome is Continue
                &&& some[j + 1] == one.view
                &&& few[j + 1] == one.notes
            } by {
                assert(states[j] == some[j]);
            }
        }
        lemma_run_reaches(cursor, replies, some, few, done);
        lemma_bytes_before(cursor.start as int, cursor.len as int, done);
        let at = RangeCursor {
            advanced: bytes_before(cursor.start as int, cursor.len as int, done) as usize,
            ..cursor
        };
        assert(states[done] == some[done]);
        assert(at.next_chunk().page == PageIndex(
            (cursor.start as int / (PAGE_BYTES as int) + done) as u64,
        ));
        assert(at.advance_spec() == (RangeCursor {
            advanced: bytes_before(cursor.start as int, cursor.len as int, count) as usize,
            ..cursor
        }));
    }
}

/// A write accesses its pages for writing, each once and in order, from that of
/// its first byte to that of its last. If every access is done, all its bytes
/// are, and they are visible; the container is otherwise as the accesses left
/// it. A write is refused only for a device, for a container too large to have
/// a capacity, and if it does not fit the capacity.
pub proof fn law_a_write_that_fits_is_done(
    view: ContainerView,
    offset: u64,
    len: usize,
    replies: Seq<AccessReplies>,
    notes: NotesView,
    states: Seq<ContainerView>,
    told: Seq<NotesView>,
    count: int,
)
    requires
        states.len() > 0 && states[0] == view,
        told.len() > 0 && told[0] == notes,
        len > 0,
        view.kind !is Device,
        offset + len <= view.page_count * PAGE_BYTES <= u64::MAX,
        count == (offset + len - 1) / (PAGE_BYTES as int) - offset as int / (PAGE_BYTES as int) + 1,
        pages_done(
            offset as int / (PAGE_BYTES as int),
            MaterializeAccess::Write,
            replies,
            states,
            told,
            count,
        ),
    ensures
        ({
            let ran = view.write_step(offset, len, replies, notes);
            &&& ran.end matches Some(end)
            &&& end.outcome == StepOutcome::<usize, ByteProgress>::Done(len)
            &&& end.advanced == len
            &&& ran.notes == told[count]
            &&& ran.view == (ContainerView {
                size_bytes: if offset + len > states[count].size_bytes {
                    (offset + len) as u64
                } else {
                    states[count].size_bytes
                },
                ..states[count]
            })
        }),
{
    let cursor = view.write_start(offset, len)->Run_0;
    lemma_run_reaches(cursor, replies, states, told, count);
    assert(bytes_before(offset as int, len as int, count) == len);
}

/// A write that an access breaks off reports the bytes of the pages before it,
/// which are visible: an error counts only if there are none. Nothing else of
/// the container changes but by the accesses.
pub proof fn law_a_write_breaks_off_at_a_page(
    view: ContainerView,
    offset: u64,
    len: usize,
    replies: Seq<AccessReplies>,
    notes: NotesView,
    states: Seq<ContainerView>,
    told: Seq<NotesView>,
    count: int,
)
    requires
        states.len() > 0 && states[0] == view,
        told.len() > 0 && told[0] == notes,
        len > 0,
        view.kind !is Device,
        offset + len <= view.page_count * PAGE_BYTES <= u64::MAX,
        0 <= count <= (offset + len - 1) / (PAGE_BYTES as int) - offset as int / (
        PAGE_BYTES as int),
        count < replies.len(),
        pages_done(
            offset as int / (PAGE_BYTES as int),
            MaterializeAccess::Write,
            replies,
            states,
            told,
            count,
        ),
        ({
            let last = states[count].access_whole(
                PageIndex((offset as int / (PAGE_BYTES as int) + count) as u64),
                MaterializeAccess::Write,
                replies[count],
                told[count],
            );
            last.outcome !is Done && last.outcome !is Continue
        }),
    ensures
        ({
            let last = states[count].access_whole(
                PageIndex((offset as int / (PAGE_BYTES as int) + count) as u64),
                MaterializeAccess::Write,
                replies[count],
                told[count],
            );
            let advanced = bytes_before(offset as int, len as int, count);
            let ran = view.write_step(offset, len, replies, notes);
            &&& ran.end matches Some(end)
            &&& end.outcome == broken_off(advanced, last.outcome)
            &&& end.advanced == advanced
            &&& ran.notes == last.notes
            &&& ran.view == (ContainerView {
                size_bytes: if advanced > 0 && offset + advanced > last.view.size_bytes {
                    (offset + advanced) as u64
                } else {
                    last.view.size_bytes
                },
                ..last.view
            })
        }),
{
    let cursor = view.write_start(offset, len)->Run_0;
    lemma_run_reaches(cursor, replies, states, told, count);
    lemma_bytes_before(offset as int, len as int, count);
    let at = RangeCursor {
        advanced: bytes_before(offset as int, len as int, count) as usize,
        ..cursor
    };
    assert(at.next_chunk().page == PageIndex(
        (offset as int / (PAGE_BYTES as int) + count) as u64,
    ));
}

/// A write that cannot be is refused, and one of nothing is done: either way
/// without a page access and without a trace.
pub proof fn law_a_write_that_does_not_fit_is_refused(
    view: ContainerView,
    offset: u64,
    len: usize,
    replies: Seq<AccessReplies>,
    notes: NotesView,
)
    requires
        len == 0 || view.kind is Device || view.page_count * PAGE_BYTES > u64::MAX || offset + len
            > view.page_count * PAGE_BYTES,
    ensures
        ({
            let ran = view.write_step(offset, len, replies, notes);
            &&& ran.view == view
            &&& ran.notes == notes
            &&& ran.end matches Some(end)
            &&& end.advanced == 0
            &&& end.outcome == if len == 0 {
                StepOutcome::<usize, ByteProgress>::Done(0)
            } else {
                StepOutcome::Error(Errno::EINVAL)
            }
        }),
{
}

/// The bytes of a file that can be read end at its size, or at its capacity if
/// that comes first.
pub open spec fn file_end(view: ContainerView) -> int {
    if view.size_bytes as int <= view.page_count * PAGE_BYTES {
        view.size_bytes as int
    } else {
        view.page_count * PAGE_BYTES
    }
}

/// What a read of `len` bytes at `offset` is cut to.
pub open spec fn cut_to_file(view: ContainerView, offset: int, len: int) -> int {
    if len <= file_end(view) - offset {
        len
    } else {
        file_end(view) - offset
    }
}

/// A read is cut at the end of the file and accesses its pages for reading, each
/// once and in order. If every access is done, so are all the bytes up to the
/// cut; the container is as the accesses left it.
pub proof fn law_a_read_brings_what_the_file_has(
    view: ContainerView,
    offset: u64,
    len: usize,
    replies: Seq<AccessReplies>,
    notes: NotesView,
    states: Seq<ContainerView>,
    told: Seq<NotesView>,
    count: int,
)
    requires
        states.len() > 0 && states[0] == view,
        told.len() > 0 && told[0] == notes,
        len > 0,
        view.page_count * PAGE_BYTES <= u64::MAX,
        offset < file_end(view),
        count == (offset + cut_to_file(view, offset as int, len as int) - 1) / (PAGE_BYTES as int)
            - offset as int / (PAGE_BYTES as int) + 1,
        pages_done(
            offset as int / (PAGE_BYTES as int),
            MaterializeAccess::Read,
            replies,
            states,
            told,
            count,
        ),
    ensures
        ({
            let ran = view.read_step(offset, len, replies, notes);
            &&& ran.end matches Some(end)
            &&& end.advanced == cut_to_file(view, offset as int, len as int)
            &&& end.outcome == StepOutcome::<usize, ByteProgress>::Done(end.advanced)
            &&& ran.view == states[count]
            &&& ran.notes == told[count]
        }),
{
    let cursor = view.read_start(offset, len)->Run_0;
    lemma_run_reaches(cursor, replies, states, told, count);
    assert(bytes_before(offset as int, cursor.len as int, count) == cursor.len);
}

/// A read that an access breaks off reports the bytes of the pages before it.
pub proof fn law_a_read_breaks_off_at_a_page(
    view: ContainerView,
    offset: u64,
    len: usize,
    replies: Seq<AccessReplies>,
    notes: NotesView,
    states: Seq<ContainerView>,
    told: Seq<NotesView>,
    count: int,
)
    requires
        states.len() > 0 && states[0] == view,
        told.len() > 0 && told[0] == notes,
        len > 0,
        view.page_count * PAGE_BYTES <= u64::MAX,
        offset < file_end(view),
        0 <= count <= (offset + cut_to_file(view, offset as int, len as int) - 1) / (
        PAGE_BYTES as int) - offset as int / (PAGE_BYTES as int),
        count < replies.len(),
        pages_done(
            offset as int / (PAGE_BYTES as int),
            MaterializeAccess::Read,
            replies,
            states,
            told,
            count,
        ),
        ({
            let last = states[count].access_whole(
                PageIndex((offset as int / (PAGE_BYTES as int) + count) as u64),
                MaterializeAccess::Read,
                replies[count],
                told[count],
            );
            last.outcome !is Done && last.outcome !is Continue
        }),
    ensures
        ({
            let last = states[count].access_whole(
                PageIndex((offset as int / (PAGE_BYTES as int) + count) as u64),
                MaterializeAccess::Read,
                replies[count],
                told[count],
            );
            let effective = cut_to_file(view, offset as int, len as int);
            let advanced = bytes_before(offset as int, effective, count);
            let ran = view.read_step(offset, len, replies, notes);
            &&& ran.end matches Some(end)
            &&& end.outcome == broken_off(advanced, last.outcome)
            &&& end.advanced == advanced
            &&& ran.view == last.view
            &&& ran.notes == last.notes
        }),
{
    let cursor = view.read_start(offset, len)->Run_0;
    lemma_run_reaches(cursor, replies, states, told, count);
    lemma_bytes_before(offset as int, cursor.len as int, count);
    let at = RangeCursor {
        advanced: bytes_before(offset as int, cursor.len as int, count) as usize,
        ..cursor
    };
    assert(at.next_chunk().page == PageIndex(
        (offset as int / (PAGE_BYTES as int) + count) as u64,
    ));
}

/// A read of nothing, or from the end of the file on, is done with nothing; one
/// of a container too large to have a capacity is refused. No page is accessed.
pub proof fn law_a_read_at_the_end_brings_nothing(
    view: ContainerView,
    offset: u64,
    len: usize,
    replies: Seq<AccessReplies>,
    notes: NotesView,
)
    requires
        len == 0 || view.page_count * PAGE_BYTES > u64::MAX || offset >= file_end(view),
    ensures
        ({
            let ran = view.read_step(offset, len, replies, notes);
            &&& ran.view == view
            &&& ran.notes == notes
            &&& ran.end matches Some(end)
            &&& end.advanced == 0
            &&& end.outcome == if len > 0 && view.page_count * PAGE_BYTES > u64::MAX {
                StepOutcome::<usize, ByteProgress>::Error(Errno::EINVAL)
            } else {
                StepOutcome::Done(0)
            }
        }),
{
}

/// The page of the byte at `offset`.
pub open spec fn page_at(offset: int) -> PageIndex {
    PageIndex((offset / (PAGE_BYTES as int)) as u64)
}

/// Whether `marks` cut `len` bytes, the first of which are at `in_offset` and
/// `out_offset`, into parts that lie in one page on either side and are as long
/// as that lets them be.
pub open spec fn marks_cut(
    in_offset: int,
    out_offset: int,
    len: int,
    marks: Seq<int>,
    count: int,
) -> bool {
    &&& marks.len() == count + 1
    &&& marks[0] == 0
    &&& forall|j: int|
        0 <= j < count ==> {
            let from = #[trigger] marks[j];
            let to = marks[j + 1];
            &&& 0 <= from < to <= len
            &&& (in_offset + from) / (PAGE_BYTES as int) == (in_offset + to - 1) / (
            PAGE_BYTES as int)
            &&& (out_offset + from) / (PAGE_BYTES as int) == (out_offset + to - 1) / (
            PAGE_BYTES as int)
            &&& to == len || (in_offset + to) % (PAGE_BYTES as int) == 0 || (out_offset + to) % (
            PAGE_BYTES as int) == 0
        }
}

/// The reading half of part `j` of a copy.
pub open spec fn part_read(
    in_offset: int,
    replies: Seq<CopyReplies>,
    marks: Seq<int>,
    sources: Seq<ContainerView>,
    told: Seq<NotesView>,
    j: int,
) -> crate::access_run::AccessView {
    sources[j].access_whole(
        page_at(in_offset + marks[j]),
        MaterializeAccess::Read,
        replies[j].input,
        told[j],
    )
}

/// The writing half of part `j` of a copy, made on `target` after `read`.
pub open spec fn part_written(
    out_offset: int,
    replies: Seq<CopyReplies>,
    marks: Seq<int>,
    target: ContainerView,
    read: crate::access_run::AccessView,
    j: int,
) -> crate::access_run::AccessView {
    target.access_whole(
        page_at(out_offset + marks[j]),
        MaterializeAccess::Write,
        replies[j].output,
        read.notes,
    )
}

/// Whether `sources`, `targets` and `told` are the containers and the notes
/// before, between and after the first `count` parts of a copy, all done.
pub open spec fn parts_done(
    in_offset: int,
    out_offset: int,
    replies: Seq<CopyReplies>,
    marks: Seq<int>,
    sources: Seq<ContainerView>,
    targets: Seq<ContainerView>,
    told: Seq<NotesView>,
    count: int,
) -> bool {
    &&& 0 <= count <= replies.len()
    &&& sources.len() == count + 1
    &&& targets.len() == count + 1
    &&& told.len() == count + 1
    &&& forall|j: int|
        0 <= j < count ==> {
            let read = part_read(in_offset, replies, marks, sources, told, j);
            let written = part_written(out_offset, replies, marks, #[trigger] targets[j], read, j);
            &&& read.outcome is Done
            &&& written.outcome is Done
            &&& replies[j].mapped
            &&& sources[j + 1] == read.view
            &&& targets[j + 1] == written.view
            &&& told[j + 1] == written.notes
        }
}

/// Whether `one` moves the bytes from `from` to `to` of a copy between the
/// frames that its accesses came out with.
pub open spec fn moves_part(
    one: CopyMove,
    in_offset: int,
    out_offset: int,
    from: int,
    to: int,
    read: PageOutcome,
    written: PageOutcome,
) -> bool {
    one == (CopyMove {
        chunk: CopyChunk {
            in_page: page_at(in_offset + from),
            in_within: ((in_offset + from) % (PAGE_BYTES as int)) as usize,
            out_page: page_at(out_offset + from),
            out_within: ((out_offset + from) % (PAGE_BYTES as int)) as usize,
            len: (to - from) as usize,
        },
        from: read->Done_0.ppn,
        to: written->Done_0.ppn,
    })
}

proof fn lemma_copy_part(cursor: CopyCursor, from: int, to: int)
    requires
        cursor.wf(),
        cursor.advanced == from,
        0 <= from < to <= cursor.len,
        (cursor.in_offset + from) / (PAGE_BYTES as int) == (cursor.in_offset + to - 1) / (
        PAGE_BYTES as int),
        (cursor.out_offset + from) / (PAGE_BYTES as int) == (cursor.out_offset + to - 1) / (
        PAGE_BYTES as int),
        to == cursor.len || (cursor.in_offset + to) % (PAGE_BYTES as int) == 0 || (
        cursor.out_offset + to) % (PAGE_BYTES as int) == 0,
    ensures
        cursor.next_chunk().in_page == page_at(cursor.in_offset + from),
        cursor.next_chunk().in_within == (cursor.in_offset + from) % (PAGE_BYTES as int),
        cursor.next_chunk().out_page == page_at(cursor.out_offset + from),
        cursor.next_chunk().out_within == (cursor.out_offset + from) % (PAGE_BYTES as int),
        cursor.next_chunk().len == to - from,
        cursor.advance_spec() == (CopyCursor { advanced: to as usize, ..cursor }),
{
}

proof fn lemma_copy_reaches(
    cursor: CopyCursor,
    replies: Seq<CopyReplies>,
    marks: Seq<int>,
    sources: Seq<ContainerView>,
    targets: Seq<ContainerView>,
    told: Seq<NotesView>,
    count: int,
) -> (moves: Seq<CopyMove>)
    requires
        cursor.wf(),
        cursor.advanced == 0,
        marks_cut(
            cursor.in_offset as int,
            cursor.out_offset as int,
            cursor.len as int,
            marks,
            count,
        ),
        parts_done(
            cursor.in_offset as int,
            cursor.out_offset as int,
            replies,
            marks,
            sources,
            targets,
            told,
            count,
        ),
    ensures
        0 <= marks[count] <= cursor.len,
        cursor.run(sources[0], targets[0], told[0], replies, 0, Seq::empty()) == (CopyCursor {
            advanced: marks[count] as usize,
            ..cursor
        }).run(sources[count], targets[count], told[count], replies, count as nat, moves),
        moves.len() == count,
        forall|j: int|
            0 <= j < count ==> {
                let read = part_read(cursor.in_offset as int, replies, marks, sources, told, j);
                let written = part_written(
                    cursor.out_offset as int,
                    replies,
                    marks,
                    targets[j],
                    read,
                    j,
                );
                moves_part(
                    #[trigger] moves[j],
                    cursor.in_offset as int,
                    cursor.out_offset as int,
                    marks[j],
                    marks[j + 1],
                    read.outcome,
                    written.outcome,
                )
            },
    decreases count,
{
    if count == 0 {
        Seq::empty()
    } else {
        let done = count - 1;
        let fewer = marks.drop_last();
        let from = sources.drop_last();
        let to = targets.drop_last();
        let said = told.drop_last();
        let in_offset = cursor.in_offset as int;
        let out_offset = cursor.out_offset as int;
        assert(marks_cut(in_offset, out_offset, cursor.len as int, fewer, done)) by {
            assert forall|j: int| 0 <= j < done implies {
                let a = #[trigger] fewer[j];
                let b = fewer[j + 1];
                &&& 0 <= a < b <= cursor.len
                &&& (in_offset + a) / (PAGE_BYTES as int) == (in_offset + b - 1) / (
                PAGE_BYTES as int)
                &&& (out_offset + a) / (PAGE_BYTES as int) == (out_offset + b - 1) / (
                PAGE_BYTES as int)
                &&& b == cursor.len || (in_offset + b) % (PAGE_BYTES as int) == 0 || (out_offset
                    + b) % (PAGE_BYTES as int) == 0
            } by {
                assert(marks[j] == fewer[j]);
            }
        }
        assert(parts_done(in_offset, out_offset, replies, fewer, from, to, said, done)) by {
            assert forall|j: int| 0 <= j < done implies {
                let read = part_read(in_offset, replies, fewer, from, said, j);
                let written = part_written(out_offset, replies, fewer, #[trigger] to[j], read, j);
                &&& read.outcome is Done
                &&& written.outcome is Done
                &&& replies[j].mapped
                &&& from[j + 1] == read.view
                &&& to[j + 1] == written.view
                &&& said[j + 1] == written.notes
            } by {
                assert(targets[j] == to[j]);
            }
        }
        let moves = lemma_copy_reaches(cursor, replies, fewer, from, to, said, done);
        assert(marks[done] == fewer[done]);
        assert(targets[done] == to[done]);
        let at = CopyCursor { advanced: marks[done] as usize, ..cursor };
        lemma_copy_part(at, marks[done], marks[count]);
        let read = part_read(in_offset, replies, marks, sources, told, done);
        let written = part_written(out_offset, replies, marks, targets[done], read, done);
        let one = CopyMove {
            chunk: at.next_chunk(),
            from: read.outcome->Done_0.ppn,
            to: written.outcome->Done_0.ppn,
        };
        let more = moves.push(one);
        assert forall|j: int| 0 <= j < count implies {
            let read = part_read(in_offset, replies, marks, sources, told, j);
            let written = part_written(out_offset, replies, marks, targets[j], read, j);
            moves_part(
                #[trigger] more[j],
                in_offset,
                out_offset,
                marks[j],
                marks[j + 1],
                read.outcome,
                written.outcome,
            )
        } by {
            if j < done {
                assert(more[j] == moves[j]);
            }
        }
        more
    }
}

/// Whether a copy of `len` bytes from `source` to `target` goes through, as far
/// as the containers decide it: the target is no device and holds the bytes
/// asked for, and the source has a byte there.
pub open spec fn copy_is_possible(
    source: ContainerView,
    in_offset: u64,
    target: ContainerView,
    out_offset: u64,
    len: usize,
) -> bool {
    &&& len > 0
    &&& target.kind !is Device
    &&& source.page_count * PAGE_BYTES <= u64::MAX
    &&& out_offset + len <= target.page_count * PAGE_BYTES <= u64::MAX
    &&& in_offset < file_end(source)
}

/// With `end` bytes visible at least.
pub open spec fn shown_to(view: ContainerView, end: int) -> ContainerView {
    ContainerView {
        size_bytes: if end > view.size_bytes {
            end as u64
        } else {
            view.size_bytes
        },
        ..view
    }
}

/// A copy is cut at the end of the source. Part by part it reads a page of the
/// source and writes one of the target, and moves as many bytes as fit both.
/// If every access is done and every frame can be addressed, all bytes up to
/// the cut are copied, each to its place, and they are visible in the target;
/// both containers are otherwise as the accesses left them.
pub proof fn law_a_copy_moves_every_byte_to_its_place(
    source: ContainerView,
    in_offset: u64,
    target: ContainerView,
    out_offset: u64,
    len: usize,
    replies: Seq<CopyReplies>,
    notes: NotesView,
    marks: Seq<int>,
    sources: Seq<ContainerView>,
    targets: Seq<ContainerView>,
    told: Seq<NotesView>,
    count: int,
)
    requires
        copy_is_possible(source, in_offset, target, out_offset, len),
        sources.len() > 0 && sources[0] == source,
        targets.len() > 0 && targets[0] == target,
        told.len() > 0 && told[0] == notes,
        marks_cut(
            in_offset as int,
            out_offset as int,
            cut_to_file(source, in_offset as int, len as int),
            marks,
            count,
        ),
        marks[count] == cut_to_file(source, in_offset as int, len as int),
        parts_done(
            in_offset as int,
            out_offset as int,
            replies,
            marks,
            sources,
            targets,
            told,
            count,
        ),
    ensures
        ({
            let ran = copy_step(source, in_offset, target, out_offset, len, replies, notes);
            let copied = cut_to_file(source, in_offset as int, len as int);
            &&& ran.end matches Some(end)
            &&& end.advanced == copied
            &&& end.outcome == StepOutcome::<usize, ByteProgress>::Done(end.advanced)
            &&& ran.source == sources[count]
            &&& ran.target == shown_to(targets[count], out_offset + copied)
            &&& ran.notes == told[count]
            &&& ran.moves.len() == count
            &&& forall|j: int|
                0 <= j < count ==> {
                    let read = part_read(in_offset as int, replies, marks, sources, told, j);
                    let written = part_written(
                        out_offset as int,
                        replies,
                        marks,
                        targets[j],
                        read,
                        j,
                    );
                    moves_part(
                        #[trigger] ran.moves[j],
                        in_offset as int,
                        out_offset as int,
                        marks[j],
                        marks[j + 1],
                        read.outcome,
                        written.outcome,
                    )
                }
        }),
{
    let cursor = copy_start(source, in_offset, target, out_offset, len)->Run_0;
    let moves = lemma_copy_reaches(cursor, replies, marks, sources, targets, told, count);
}

/// A copy that breaks off reports the bytes of the parts before, which are
/// visible in the target. It breaks off where a page of the source does not come
/// out done, in which case the target is not accessed; where one of the target
/// does not; and where a frame cannot be addressed.
pub proof fn law_a_copy_breaks_off_at_a_part(
    source: ContainerView,
    in_offset: u64,
    target: ContainerView,
    out_offset: u64,
    len: usize,
    replies: Seq<CopyReplies>,
    notes: NotesView,
    marks: Seq<int>,
    sources: Seq<ContainerView>,
    targets: Seq<ContainerView>,
    told: Seq<NotesView>,
    count: int,
)
    requires
        copy_is_possible(source, in_offset, target, out_offset, len),
        sources.len() > 0 && sources[0] == source,
        targets.len() > 0 && targets[0] == target,
        told.len() > 0 && told[0] == notes,
        marks_cut(
            in_offset as int,
            out_offset as int,
            cut_to_file(source, in_offset as int, len as int),
            marks,
            count,
        ),
        marks[count] < cut_to_file(source, in_offset as int, len as int),
        parts_done(
            in_offset as int,
            out_offset as int,
            replies,
            marks,
            sources,
            targets,
            told,
            count,
        ),
        count < replies.len(),
    ensures
        ({
            let ran = copy_step(source, in_offset, target, out_offset, len, replies, notes);
            let read = part_read(in_offset as int, replies, marks, sources, told, count);
            let written = part_written(
                out_offset as int,
                replies,
                marks,
                targets[count],
                read,
                count,
            );
            &&& read.outcome !is Done ==> {
                &&& ran.end matches Some(end)
                &&& end.advanced == marks[count]
                &&& end.outcome == broken_off(marks[count], read.outcome)
                &&& ran.notes == read.notes
                &&& ran.source == read.view
                &&& ran.target == if marks[count] > 0 {
                    shown_to(targets[count], out_offset + marks[count])
                } else {
                    targets[count]
                }
                &&& ran.moves.len() == count
            }
            &&& read.outcome is Done && (written.outcome !is Done || !replies[count].mapped) ==> {
                &&& ran.end matches Some(end)
                &&& end.advanced == marks[count]
                &&& end.outcome == if written.outcome !is Done {
                    broken_off(marks[count], written.outcome)
                } else if marks[count] == 0 {
                    StepOutcome::Error(Errno::EIO)
                } else {
                    StepOutcome::Done(marks[count] as usize)
                }
                &&& ran.notes == written.notes
                &&& ran.source == read.view
                &&& ran.target == if marks[count] > 0 {
                    shown_to(written.view, out_offset + marks[count])
                } else {
                    written.view
                }
                &&& ran.moves.len() == count
            }
        }),
{
    let cursor = copy_start(source, in_offset, target, out_offset, len)->Run_0;
    let moves = lemma_copy_reaches(cursor, replies, marks, sources, targets, told, count);
    let at = CopyCursor { advanced: marks[count] as usize, ..cursor };
    assert(at.next_chunk().in_page == page_at(in_offset + marks[count]));
    assert(at.next_chunk().out_page == page_at(out_offset + marks[count]));
}

/// A copy that cannot be is refused, and one of nothing or from the end of the
/// source on is done with nothing: either way without a trace.
pub proof fn law_a_copy_that_cannot_be_leaves_no_trace(
    source: ContainerView,
    in_offset: u64,
    target: ContainerView,
    out_offset: u64,
    len: usize,
    replies: Seq<CopyReplies>,
    notes: NotesView,
)
    requires
        !copy_is_possible(source, in_offset, target, out_offset, len),
    ensures
        ({
            let ran = copy_step(source, in_offset, target, out_offset, len, replies, notes);
            let refused = target.kind is Device || source.page_count * PAGE_BYTES > u64::MAX
                || target.page_count * PAGE_BYTES > u64::MAX || out_offset + len
                > target.page_count * PAGE_BYTES;
            &&& ran.source == source
            &&& ran.target == target
            &&& ran.notes == notes
            &&& ran.moves.len() == 0
            &&& ran.end matches Some(end)
            &&& end.advanced == 0
            &&& end.outcome == if len > 0 && refused {
                StepOutcome::<usize, ByteProgress>::Error(Errno::EINVAL)
            } else {
                StepOutcome::Done(0)
            }
        }),
{
}

/// Whether `states` and `told` are the container and the notes before, between
/// and after the first `count` parts of a copy within it, all done.
pub open spec fn parts_done_within(
    in_offset: int,
    out_offset: int,
    replies: Seq<CopyReplies>,
    marks: Seq<int>,
    states: Seq<ContainerView>,
    told: Seq<NotesView>,
    count: int,
) -> bool {
    &&& 0 <= count <= replies.len()
    &&& states.len() == count + 1
    &&& told.len() == count + 1
    &&& forall|j: int|
        0 <= j < count ==> {
            let read = part_read(in_offset, replies, marks, states, told, j);
            let written = part_written(out_offset, replies, marks, read.view, read, j);
            &&& read.outcome is Done
            &&& written.outcome is Done
            &&& replies[j].mapped
            &&& #[trigger] states[j + 1] == written.view
            &&& told[j + 1] == written.notes
        }
}

proof fn lemma_copy_within_reaches(
    cursor: CopyCursor,
    replies: Seq<CopyReplies>,
    marks: Seq<int>,
    states: Seq<ContainerView>,
    told: Seq<NotesView>,
    count: int,
) -> (moves: Seq<CopyMove>)
    requires
        cursor.wf(),
        cursor.advanced == 0,
        marks_cut(
            cursor.in_offset as int,
            cursor.out_offset as int,
            cursor.len as int,
            marks,
            count,
        ),
        parts_done_within(
            cursor.in_offset as int,
            cursor.out_offset as int,
            replies,
            marks,
            states,
            told,
            count,
        ),
    ensures
        0 <= marks[count] <= cursor.len,
        cursor.run_within(states[0], told[0], replies, 0, Seq::empty()) == (CopyCursor {
            advanced: marks[count] as usize,
            ..cursor
        }).run_within(states[count], told[count], replies, count as nat, moves),
        moves.len() == count,
        forall|j: int|
            0 <= j < count ==> {
                let read = part_read(cursor.in_offset as int, replies, marks, states, told, j);
                let written = part_written(
                    cursor.out_offset as int,
                    replies,
                    marks,
                    read.view,
                    read,
                    j,
                );
                moves_part(
                    #[trigger] moves[j],
                    cursor.in_offset as int,
                    cursor.out_offset as int,
                    marks[j],
                    marks[j + 1],
                    read.outcome,
                    written.outcome,
                )
            },
    decreases count,
{
    if count == 0 {
        Seq::empty()
    } else {
        let done = count - 1;
        let fewer = marks.drop_last();
        let some = states.drop_last();
        let said = told.drop_last();
        let in_offset = cursor.in_offset as int;
        let out_offset = cursor.out_offset as int;
        assert(marks_cut(in_offset, out_offset, cursor.len as int, fewer, done)) by {
            assert forall|j: int| 0 <= j < done implies {
                let a = #[trigger] fewer[j];
                let b = fewer[j + 1];
                &&& 0 <= a < b <= cursor.len
                &&& (in_offset + a) / (PAGE_BYTES as int) == (in_offset + b - 1) / (
                PAGE_BYTES as int)
                &&& (out_offset + a) / (PAGE_BYTES as int) == (out_offset + b - 1) / (
                PAGE_BYTES as int)
                &&& b == cursor.len || (in_offset + b) % (PAGE_BYTES as int) == 0 || (out_offset
                    + b) % (PAGE_BYTES as int) == 0
            } by {
                assert(marks[j] == fewer[j]);
            }
        }
        assert(parts_done_within(in_offset, out_offset, replies, fewer, some, said, done)) by {
            assert forall|j: int| 0 <= j < done implies {
                let read = part_read(in_offset, replies, fewer, some, said, j);
                let written = part_written(out_offset, replies, fewer, read.view, read, j);
                &&& read.outcome is Done
                &&& written.outcome is Done
                &&& replies[j].mapped
                &&& #[trigger] some[j + 1] == written.view
                &&& said[j + 1] == written.notes
            } by {
                assert(states[j + 1] == some[j + 1]);
            }
        }
        let moves = lemma_copy_within_reaches(cursor, replies, fewer, some, said, done);
        assert(marks[done] == fewer[done]);
        assert(states[done] == some[done]);
        assert(states[done + 1] == states[count]);
        let at = CopyCursor { advanced: marks[done] as usize, ..cursor };
        lemma_copy_part(at, marks[done], marks[count]);
        let read = part_read(in_offset, replies, marks, states, told, done);
        let written = part_written(out_offset, replies, marks, read.view, read, done);
        let one = CopyMove {
            chunk: at.next_chunk(),
            from: read.outcome->Done_0.ppn,
            to: written.outcome->Done_0.ppn,
        };
        let more = moves.push(one);
        assert forall|j: int| 0 <= j < count implies {
            let read = part_read(in_offset, replies, marks, states, told, j);
            let written = part_written(out_offset, replies, marks, read.view, read, j);
            moves_part(
                #[trigger] more[j],
                in_offset,
                out_offset,
                marks[j],
                marks[j + 1],
                read.outcome,
                written.outcome,
            )
        } by {
            if j < done {
                assert(more[j] == moves[j]);
            }
        }
        more
    }
}

/// A copy within one container goes as one between two: every byte up to the cut
/// gets to its place if every access is done.
pub proof fn law_a_copy_within_moves_every_byte_to_its_place(
    view: ContainerView,
    in_offset: u64,
    out_offset: u64,
    len: usize,
    replies: Seq<CopyReplies>,
    notes: NotesView,
    marks: Seq<int>,
    states: Seq<ContainerView>,
    told: Seq<NotesView>,
    count: int,
)
    requires
        copy_is_possible(view, in_offset, view, out_offset, len),
        states.len() > 0 && states[0] == view,
        told.len() > 0 && told[0] == notes,
        marks_cut(
            in_offset as int,
            out_offset as int,
            cut_to_file(view, in_offset as int, len as int),
            marks,
            count,
        ),
        marks[count] == cut_to_file(view, in_offset as int, len as int),
        parts_done_within(in_offset as int, out_offset as int, replies, marks, states, told, count),
    ensures
        ({
            let ran = view.copy_within(in_offset, out_offset, len, replies, notes);
            let copied = cut_to_file(view, in_offset as int, len as int);
            &&& ran.end matches Some(end)
            &&& end.advanced == copied
            &&& end.outcome == StepOutcome::<usize, ByteProgress>::Done(end.advanced)
            &&& ran.view == shown_to(states[count], out_offset + copied)
            &&& ran.notes == told[count]
            &&& ran.moves.len() == count
            &&& forall|j: int|
                0 <= j < count ==> {
                    let read = part_read(in_offset as int, replies, marks, states, told, j);
                    let written = part_written(
                        out_offset as int,
                        replies,
                        marks,
                        read.view,
                        read,
                        j,
                    );
                    moves_part(
                        #[trigger] ran.moves[j],
                        in_offset as int,
                        out_offset as int,
                        marks[j],
                        marks[j + 1],
                        read.outcome,
                        written.outcome,
                    )
                }
        }),
{
    let cursor = copy_start(view, in_offset, view, out_offset, len)->Run_0;
    let moves = lemma_copy_within_reaches(cursor, replies, marks, states, told, count);
}

/// A copy within one container that cannot be leaves no trace.
pub proof fn law_a_copy_within_that_cannot_be_leaves_no_trace(
    view: ContainerView,
    in_offset: u64,
    out_offset: u64,
    len: usize,
    replies: Seq<CopyReplies>,
    notes: NotesView,
)
    requires
        !copy_is_possible(view, in_offset, view, out_offset, len),
    ensures
        ({
            let ran = view.copy_within(in_offset, out_offset, len, replies, notes);
            let refused = view.kind is Device || view.page_count * PAGE_BYTES > u64::MAX
                || out_offset + len > view.page_count * PAGE_BYTES;
            &&& ran.view == view
            &&& ran.notes == notes
            &&& ran.moves.len() == 0
            &&& ran.end matches Some(end)
            &&& end.outcome == if len > 0 && refused {
                StepOutcome::<usize, ByteProgress>::Error(Errno::EINVAL)
            } else {
                StepOutcome::Done(0)
            }
        }),
{
}

/// A copy within one container breaks off as one between two: it reports the bytes of
/// the parts before, which are visible.
pub proof fn law_a_copy_within_breaks_off_at_a_part(
    view: ContainerView,
    in_offset: u64,
    out_offset: u64,
    len: usize,
    replies: Seq<CopyReplies>,
    notes: NotesView,
    marks: Seq<int>,
    states: Seq<ContainerView>,
    told: Seq<NotesView>,
    count: int,
)
    requires
        copy_is_possible(view, in_offset, view, out_offset, len),
        states.len() > 0 && states[0] == view,
        told.len() > 0 && told[0] == notes,
        marks_cut(
            in_offset as int,
            out_offset as int,
            cut_to_file(view, in_offset as int, len as int),
            marks,
            count,
        ),
        marks[count] < cut_to_file(view, in_offset as int, len as int),
        parts_done_within(in_offset as int, out_offset as int, replies, marks, states, told, count),
        count < replies.len(),
    ensures
        ({
            let ran = view.copy_within(in_offset, out_offset, len, replies, notes);
            let read = part_read(in_offset as int, replies, marks, states, told, count);
            let written = part_written(
                out_offset as int,
                replies,
                marks,
                read.view,
                read,
                count,
            );
            let last = if read.outcome !is Done {
                read
            } else {
                written
            };
            last.outcome !is Done || !replies[count].mapped ==> {
                &&& ran.end matches Some(end)
                &&& end.advanced == marks[count]
                &&& end.outcome == if last.outcome !is Done {
                    broken_off(marks[count], last.outcome)
                } else if marks[count] == 0 {
                    StepOutcome::Error(Errno::EIO)
                } else {
                    StepOutcome::Done(marks[count] as usize)
                }
                &&& ran.notes == last.notes
                &&& ran.view == if marks[count] > 0 {
                    shown_to(last.view, out_offset + marks[count])
                } else {
                    last.view
                }
                &&& ran.moves.len() == count
            }
        }),
{
    let cursor = copy_start(view, in_offset, view, out_offset, len)->Run_0;
    let moves = lemma_copy_within_reaches(cursor, replies, marks, states, told, count);
    let at = CopyCursor { advanced: marks[count] as usize, ..cursor };
    assert(at.next_chunk().in_page == page_at(in_offset + marks[count]));
    assert(at.next_chunk().out_page == page_at(out_offset + marks[count]));
}

/// A write whose answers do not last has no outcome yet: the pages so far have been
/// accessed, and nothing is visible that was not.
pub proof fn law_a_write_waits_for_its_answers(
    view: ContainerView,
    offset: u64,
    len: usize,
    replies: Seq<AccessReplies>,
    notes: NotesView,
    states: Seq<ContainerView>,
    told: Seq<NotesView>,
    count: int,
)
    requires
        states.len() > 0 && states[0] == view,
        told.len() > 0 && told[0] == notes,
        len > 0,
        view.kind !is Device,
        offset + len <= view.page_count * PAGE_BYTES <= u64::MAX,
        0 <= count <= (offset + len - 1) / (PAGE_BYTES as int) - offset as int / (
        PAGE_BYTES as int),
        count == replies.len(),
        pages_done(
            offset as int / (PAGE_BYTES as int),
            MaterializeAccess::Write,
            replies,
            states,
            told,
            count,
        ),
    ensures
        ({
            let ran = view.write_step(offset, len, replies, notes);
            ran.end is None && ran.view == states[count] && ran.notes == told[count]
        }),
{
    let cursor = view.write_start(offset, len)->Run_0;
    lemma_run_reaches(cursor, replies, states, told, count);
    lemma_bytes_before(offset as int, len as int, count);
}

} // verus!
