//! What holds of whole reads, writes and copies.

use crate::access_laws::lemma_access_keeps;
use crate::access_run::{lemma_access_frame, AccessReplies, NotesView};
use crate::container::{holds_dirt, ContainerView, MaterializeAccess};
use crate::ids::{PageIndex, PAGE_BYTES};
use crate::step::StepOutcome;
use crate::transfer::{
    copy_start, copy_step, copy_stop, lemma_copy_run, range_stop, CopyChunk, CopyCursor, CopyMove,
    CopyReplies, CopyStart, RangeCursor, TransferStart,
};
use vstd::prelude::*;

verus! {

/// A read never reports a byte beyond the end of the file, nor more than was
/// asked for; and once bytes have been transferred no error hides them.
pub proof fn law_read_stays_in_the_file(
    view: ContainerView,
    offset: u64,
    len: usize,
    replies: Seq<AccessReplies>,
    notes: NotesView,
)
    ensures
        view.read_step(offset, len, replies, notes).end matches Some(end) ==> {
            &&& end.advanced <= len
            &&& end.advanced > 0 ==> offset + end.advanced <= view.readable_end()
            &&& end.outcome is Error ==> end.advanced == 0
            &&& end.outcome matches StepOutcome::Done(n) ==> n == end.advanced
        },
        view.read_step(offset, len, replies, notes).view.size_bytes == view.size_bytes,
{
    if let TransferStart::Run(cursor) = view.read_start(offset, len) {
        cursor.lemma_run(view, notes, replies, 0);
    }
}

/// A write makes exactly the bytes that it brought visible, and never more than
/// the container can hold.
pub proof fn law_write_grows_by_what_it_brought(
    view: ContainerView,
    offset: u64,
    len: usize,
    replies: Seq<AccessReplies>,
    notes: NotesView,
)
    requires
        view.capacity() matches Some(capacity) && view.size_bytes <= capacity,
    ensures
        ({
            let ran = view.write_step(offset, len, replies, notes);
            let after = ran.view.size_bytes;
            match ran.end {
                None => after == view.size_bytes,
                Some(end) => {
                    &&& end.advanced <= len
                    &&& after <= view.capacity()->Some_0
                    &&& after == if end.advanced > 0 && offset + end.advanced > view.size_bytes {
                        offset + end.advanced
                    } else {
                        view.size_bytes as int
                    }
                    &&& end.outcome is Error ==> end.advanced == 0
                    &&& end.outcome matches StepOutcome::Done(n) ==> n == end.advanced
                },
            }
        }),
{
    if let TransferStart::Run(cursor) = view.write_start(offset, len) {
        cursor.lemma_run(view, notes, replies, 0);
    }
}

/// Whether the `len` bytes from `start` on reach into `page`.
pub open spec fn touches(start: int, len: int, page: PageIndex) -> bool {
    &&& len > 0
    &&& page.0 * PAGE_BYTES < start + len
    &&& start < (page.0 + 1) * PAGE_BYTES
}

impl RangeCursor {
    /// Whether no page access of the rest of the range has to be tried again at
    /// once. One that has to brings no page, though the range goes on.
    pub open spec fn never_retries(
        self,
        view: ContainerView,
        notes: NotesView,
        replies: Seq<AccessReplies>,
        i: nat,
    ) -> bool
        decreases replies.len() - i,
    {
        if self.advanced >= self.len || i >= replies.len() {
            true
        } else {
            let one = view.access_whole(
                self.next_chunk().page,
                self.access_spec(),
                replies[i as int],
                notes,
            );
            one.outcome !is Continue && (one.outcome is Done ==> self.advance_spec().never_retries(
                one.view,
                one.notes,
                replies,
                i + 1,
            ))
        }
    }

    /// What is owed of a page that the range has been over.
    pub open spec fn brought(self, view: ContainerView, page: PageIndex) -> bool {
        match self.access_spec() {
            MaterializeAccess::Read => view.cached(page),
            MaterializeAccess::Write => view.written_at(page),
        }
    }

    proof fn lemma_run_brings(
        self,
        view: ContainerView,
        notes: NotesView,
        replies: Seq<AccessReplies>,
        i: nat,
        page: PageIndex,
    )
        requires
            self.wf(),
            view.serviceable(),
            view.publishes_cached_pages() || self.access_spec() is Write,
            self.access_spec() is Write ==> view.kind !is Device,
            self.never_retries(view, notes, replies, i),
            touches(self.start as int, self.advanced as int, page) ==> self.brought(view, page),
        ensures
            ({
                let ran = self.run(view, notes, replies, i);
                ran.end matches Some(end) ==> touches(
                    self.start as int,
                    end.advanced as int,
                    page,
                ) ==> self.brought(ran.view, page)
            }),
        decreases replies.len() - i,
    {
        if self.advanced < self.len && i < replies.len() {
            let chunk = self.next_chunk();
            let one = view.access_whole(
                chunk.page,
                self.access_spec(),
                replies[i as int],
                notes,
            );
            lemma_access_keeps(
                view,
                chunk.page,
                self.access_spec(),
                replies[i as int],
                notes,
                page,
            );
            lemma_access_frame(view, chunk.page, self.access_spec(), replies[i as int], notes);
            if range_stop(self.advanced, one.outcome) is None {
                self.lemma_step();
                let next = self.advance_spec();
                if touches(self.start as int, next.advanced as int, page) && !touches(
                    self.start as int,
                    self.advanced as int,
                    page,
                ) {
                    assert(page == chunk.page);
                }
                next.lemma_run_brings(one.view, one.notes, replies, i + 1, page);
            }
        }
    }
}

/// What a write has brought is dirty: every page that its bytes reach into is
/// cached and holds contents that are not on the backing store.
pub proof fn law_written_pages_are_dirty(
    view: ContainerView,
    offset: u64,
    len: usize,
    replies: Seq<AccessReplies>,
    notes: NotesView,
    page: PageIndex,
)
    requires
        view.consistent(),
        view.write_start(offset, len) matches TransferStart::Run(cursor) ==> cursor.never_retries(
            view,
            notes,
            replies,
            0,
        ),
    ensures
        ({
            let ran = view.write_step(offset, len, replies, notes);
            ran.end matches Some(end) ==> touches(offset as int, end.advanced as int, page) ==> {
                &&& ran.view.cached(page)
                &&& holds_dirt(ran.view.slot(page))
                &&& ran.view.written_at(page)
            }
        }),
{
    if let TransferStart::Run(cursor) = view.write_start(offset, len) {
        cursor.lemma_run_brings(view, notes, replies, 0, page);
    }
}

/// What a read has brought is there: every page that its bytes reach into is
/// cached.
pub proof fn law_read_pages_are_cached(
    view: ContainerView,
    offset: u64,
    len: usize,
    replies: Seq<AccessReplies>,
    notes: NotesView,
    page: PageIndex,
)
    requires
        view.consistent(),
        view.read_start(offset, len) matches TransferStart::Run(cursor) ==> cursor.never_retries(
            view,
            notes,
            replies,
            0,
        ),
    ensures
        ({
            let ran = view.read_step(offset, len, replies, notes);
            ran.end matches Some(end) ==> touches(offset as int, end.advanced as int, page)
                ==> ran.view.cached(page)
        }),
{
    if let TransferStart::Run(cursor) = view.read_start(offset, len) {
        cursor.lemma_run_brings(view, notes, replies, 0, page);
    }
}

proof fn lemma_copy_brings(
    cursor: CopyCursor,
    source: ContainerView,
    target: ContainerView,
    notes: NotesView,
    replies: Seq<CopyReplies>,
    i: nat,
    moves: Seq<CopyMove>,
    page: PageIndex,
)
    requires
        cursor.wf(),
        target.serviceable(),
        target.kind !is Device,
        touches(cursor.out_offset as int, cursor.advanced as int, page) ==> target.written_at(page),
    ensures
        ({
            let ran = cursor.run(source, target, notes, replies, i, moves);
            ran.end matches Some(end) ==> touches(
                cursor.out_offset as int,
                end.advanced as int,
                page,
            ) ==> ran.target.written_at(page)
        }),
    decreases replies.len() - i,
{
    if cursor.advanced < cursor.len && i < replies.len() {
        let chunk = cursor.next_chunk();
        let one = replies[i as int];
        let read = source.access_whole(chunk.in_page, MaterializeAccess::Read, one.input, notes);
        if copy_stop(cursor.advanced, read.outcome) is None {
            let written = target.access_whole(
                chunk.out_page,
                MaterializeAccess::Write,
                one.output,
                read.notes,
            );
            lemma_access_keeps(
                target,
                chunk.out_page,
                MaterializeAccess::Write,
                one.output,
                read.notes,
                page,
            );
            lemma_access_frame(
                target,
                chunk.out_page,
                MaterializeAccess::Write,
                one.output,
                read.notes,
            );
            if copy_stop(cursor.advanced, written.outcome) is None && one.mapped {
                let next = cursor.advance_spec();
                if touches(cursor.out_offset as int, next.advanced as int, page) && !touches(
                    cursor.out_offset as int,
                    cursor.advanced as int,
                    page,
                ) {
                    assert(page == chunk.out_page);
                }
                lemma_copy_brings(
                    next,
                    read.view,
                    written.view,
                    written.notes,
                    replies,
                    i + 1,
                    moves.push(
                        CopyMove {
                            chunk,
                            from: read.outcome->Done_0.ppn,
                            to: written.outcome->Done_0.ppn,
                        },
                    ),
                    page,
                );
            }
        }
    }
}

/// What a copy has brought is dirty: every page of the target that the copied
/// bytes reach into is cached and holds contents that are not on the backing
/// store. The target shows exactly the bytes that were copied, and the size of
/// the source stays.
pub proof fn law_copied_pages_are_dirty(
    source: ContainerView,
    in_offset: u64,
    target: ContainerView,
    out_offset: u64,
    len: usize,
    replies: Seq<CopyReplies>,
    notes: NotesView,
    page: PageIndex,
)
    requires
        target.consistent(),
    ensures
        ({
            let ran = copy_step(source, in_offset, target, out_offset, len, replies, notes);
            &&& ran.source.size_bytes == source.size_bytes
            &&& ran.end matches Some(end) ==> {
                &&& ran.target.size_bytes == if end.advanced > 0 && out_offset + end.advanced
                    > target.size_bytes {
                    out_offset + end.advanced
                } else {
                    target.size_bytes as int
                }
                &&& touches(out_offset as int, end.advanced as int, page) ==> {
                    &&& ran.target.cached(page)
                    &&& holds_dirt(ran.target.slot(page))
                    &&& ran.target.written_at(page)
                }
            }
        }),
{
    if let CopyStart::Run(cursor) = copy_start(source, in_offset, target, out_offset, len) {
        lemma_copy_run(cursor, source, target, notes, replies, 0, Seq::empty());
        lemma_copy_brings(cursor, source, target, notes, replies, 0, Seq::empty(), page);
    }
}

proof fn lemma_copy_within_brings(
    cursor: CopyCursor,
    view: ContainerView,
    notes: NotesView,
    replies: Seq<CopyReplies>,
    i: nat,
    moves: Seq<CopyMove>,
    page: PageIndex,
)
    requires
        cursor.wf(),
        view.serviceable(),
        view.kind !is Device,
        touches(cursor.out_offset as int, cursor.advanced as int, page) ==> view.written_at(page),
    ensures
        ({
            let ran = cursor.run_within(view, notes, replies, i, moves);
            ran.end matches Some(end) ==> touches(
                cursor.out_offset as int,
                end.advanced as int,
                page,
            ) ==> ran.view.written_at(page)
        }),
    decreases replies.len() - i,
{
    if cursor.advanced < cursor.len && i < replies.len() {
        let chunk = cursor.next_chunk();
        let one = replies[i as int];
        let reading = MaterializeAccess::Read;
        let writing = MaterializeAccess::Write;
        let read = view.access_whole(chunk.in_page, reading, one.input, notes);
        lemma_access_keeps(view, chunk.in_page, reading, one.input, notes, page);
        lemma_access_frame(view, chunk.in_page, reading, one.input, notes);
        if copy_stop(cursor.advanced, read.outcome) is None {
            let written = read.view.access_whole(
                chunk.out_page,
                writing,
                one.output,
                read.notes,
            );
            lemma_access_keeps(
                read.view,
                chunk.out_page,
                writing,
                one.output,
                read.notes,
                page,
            );
            lemma_access_frame(read.view, chunk.out_page, writing, one.output, read.notes);
            if copy_stop(cursor.advanced, written.outcome) is None && one.mapped {
                let next = cursor.advance_spec();
                if touches(cursor.out_offset as int, next.advanced as int, page) && !touches(
                    cursor.out_offset as int,
                    cursor.advanced as int,
                    page,
                ) {
                    assert(page == chunk.out_page);
                }
                lemma_copy_within_brings(
                    next,
                    written.view,
                    written.notes,
                    replies,
                    i + 1,
                    moves.push(
                        CopyMove {
                            chunk,
                            from: read.outcome->Done_0.ppn,
                            to: written.outcome->Done_0.ppn,
                        },
                    ),
                    page,
                );
            }
        }
    }
}

/// What a copy within one container has brought is dirty, as with two, and the
/// container shows what was copied.
pub proof fn law_pages_copied_within_are_dirty(
    view: ContainerView,
    in_offset: u64,
    out_offset: u64,
    len: usize,
    replies: Seq<CopyReplies>,
    notes: NotesView,
    page: PageIndex,
)
    requires
        view.consistent(),
    ensures
        ({
            let ran = view.copy_within(in_offset, out_offset, len, replies, notes);
            ran.end matches Some(end) ==> {
                &&& ran.view.size_bytes == if end.advanced > 0 && out_offset + end.advanced
                    > view.size_bytes {
                    out_offset + end.advanced
                } else {
                    view.size_bytes as int
                }
                &&& touches(out_offset as int, end.advanced as int, page) ==> {
                    &&& ran.view.cached(page)
                    &&& holds_dirt(ran.view.slot(page))
                    &&& ran.view.written_at(page)
                }
            }
        }),
{
    if let CopyStart::Run(cursor) = copy_start(view, in_offset, view, out_offset, len) {
        cursor.lemma_run_within(view, notes, replies, 0, Seq::empty());
        lemma_copy_within_brings(cursor, view, notes, replies, 0, Seq::empty(), page);
    }
}

/// Pages that the `len` bytes from `start` on reach into.
pub open spec fn pages_spanned(start: int, len: int) -> int {
    if len <= 0 {
        0
    } else {
        (start + len - 1) / (PAGE_BYTES as int) - start / (PAGE_BYTES as int) + 1
    }
}

proof fn lemma_run_ends(
    cursor: RangeCursor,
    view: ContainerView,
    notes: NotesView,
    replies: Seq<AccessReplies>,
    i: nat,
)
    requires
        cursor.wf(),
        i <= replies.len(),
        replies.len() - i >= pages_spanned(cursor.offset_spec(), cursor.left()),
    ensures
        cursor.run(view, notes, replies, i).end is Some,
    decreases replies.len() - i,
{
    if cursor.advanced < cursor.len {
        let one = view.access_whole(
            cursor.next_chunk().page,
            cursor.access_spec(),
            replies[i as int],
            notes,
        );
        cursor.lemma_step();
        if range_stop(cursor.advanced, one.outcome) is None {
            lemma_run_ends(cursor.advance_spec(), one.view, one.notes, replies, i + 1);
        }
    }
}

/// A read or a write comes to an outcome if the access to each page that it may
/// reach into is answered.
pub proof fn law_an_answer_per_page_is_enough(
    view: ContainerView,
    offset: u64,
    len: usize,
    replies: Seq<AccessReplies>,
    notes: NotesView,
)
    requires
        replies.len() >= pages_spanned(offset as int, len as int),
    ensures
        view.read_step(offset, len, replies, notes).end is Some,
        view.write_step(offset, len, replies, notes).end is Some,
{
    if let TransferStart::Run(cursor) = view.read_start(offset, len) {
        lemma_run_ends(cursor, view, notes, replies, 0);
    }
    if let TransferStart::Run(cursor) = view.write_start(offset, len) {
        lemma_run_ends(cursor, view, notes, replies, 0);
    }
}

proof fn lemma_copy_ends(
    cursor: CopyCursor,
    source: ContainerView,
    target: ContainerView,
    notes: NotesView,
    replies: Seq<CopyReplies>,
    i: nat,
    moves: Seq<CopyMove>,
)
    requires
        cursor.wf(),
        i <= replies.len(),
        replies.len() - i >= pages_spanned(
            cursor.in_offset + cursor.advanced,
            cursor.len - cursor.advanced,
        ) + pages_spanned(cursor.out_offset + cursor.advanced, cursor.len - cursor.advanced),
    ensures
        cursor.run(source, target, notes, replies, i, moves).end is Some,
    decreases replies.len() - i,
{
    if cursor.advanced < cursor.len {
        let chunk = cursor.next_chunk();
        let one = replies[i as int];
        let read = source.access_whole(chunk.in_page, MaterializeAccess::Read, one.input, notes);
        let written = target.access_whole(
            chunk.out_page,
            MaterializeAccess::Write,
            one.output,
            read.notes,
        );
        let next = cursor.advance_spec();
        lemma_copy_ends(
            next,
            read.view,
            written.view,
            written.notes,
            replies,
            i + 1,
            moves.push(
                CopyMove {
                    chunk,
                    from: read.outcome->Done_0.ppn,
                    to: written.outcome->Done_0.ppn,
                },
            ),
        );
    }
}

/// A copy comes to an outcome if there are answers for as many parts as the
/// pages that it may reach into on both sides.
pub proof fn law_answers_for_the_pages_of_both_sides_are_enough(
    source: ContainerView,
    in_offset: u64,
    target: ContainerView,
    out_offset: u64,
    len: usize,
    replies: Seq<CopyReplies>,
    notes: NotesView,
)
    requires
        replies.len() >= pages_spanned(in_offset as int, len as int) + pages_spanned(
            out_offset as int,
            len as int,
        ),
    ensures
        copy_step(source, in_offset, target, out_offset, len, replies, notes).end is Some,
{
    if let CopyStart::Run(cursor) = copy_start(source, in_offset, target, out_offset, len) {
        lemma_copy_ends(cursor, source, target, notes, replies, 0, Seq::empty());
    }
}

proof fn lemma_copy_within_ends(
    cursor: CopyCursor,
    view: ContainerView,
    notes: NotesView,
    replies: Seq<CopyReplies>,
    i: nat,
    moves: Seq<CopyMove>,
)
    requires
        cursor.wf(),
        i <= replies.len(),
        replies.len() - i >= pages_spanned(
            cursor.in_offset + cursor.advanced,
            cursor.len - cursor.advanced,
        ) + pages_spanned(cursor.out_offset + cursor.advanced, cursor.len - cursor.advanced),
    ensures
        cursor.run_within(view, notes, replies, i, moves).end is Some,
    decreases replies.len() - i,
{
    if cursor.advanced < cursor.len {
        let chunk = cursor.next_chunk();
        let one = replies[i as int];
        let read = view.access_whole(chunk.in_page, MaterializeAccess::Read, one.input, notes);
        let written = read.view.access_whole(
            chunk.out_page,
            MaterializeAccess::Write,
            one.output,
            read.notes,
        );
        lemma_copy_within_ends(
            cursor.advance_spec(),
            written.view,
            written.notes,
            replies,
            i + 1,
            moves.push(
                CopyMove {
                    chunk,
                    from: read.outcome->Done_0.ppn,
                    to: written.outcome->Done_0.ppn,
                },
            ),
        );
    }
}

/// A copy within one container comes to an outcome if there are answers for as
/// many parts as the pages that it may reach into on both sides.
pub proof fn law_a_copy_within_ends_with_answers_for_its_pages(
    view: ContainerView,
    in_offset: u64,
    out_offset: u64,
    len: usize,
    replies: Seq<CopyReplies>,
    notes: NotesView,
)
    requires
        replies.len() >= pages_spanned(in_offset as int, len as int) + pages_spanned(
            out_offset as int,
            len as int,
        ),
    ensures
        view.copy_within(in_offset, out_offset, len, replies, notes).end is Some,
{
    if let CopyStart::Run(cursor) = copy_start(view, in_offset, view, out_offset, len) {
        lemma_copy_within_ends(cursor, view, notes, replies, 0, Seq::empty());
    }
}

/// Bytes in the first `n` moves.
pub open spec fn copied_bytes(moves: Seq<CopyMove>, n: nat) -> int
    decreases n,
{
    if n == 0 {
        0
    } else {
        copied_bytes(moves, (n - 1) as nat) + moves[n - 1].chunk.len
    }
}

/// Whether `chunk` moves `done` bytes further than the start of the copy on
/// both sides, within one page each.
pub open spec fn chunk_fits(chunk: CopyChunk, in_offset: u64, out_offset: u64, done: int) -> bool {
    &&& chunk.len > 0
    &&& chunk.in_page.0 * PAGE_BYTES + chunk.in_within == in_offset + done
    &&& chunk.out_page.0 * PAGE_BYTES + chunk.out_within == out_offset + done
    &&& chunk.in_within + chunk.len <= PAGE_BYTES
    &&& chunk.out_within + chunk.len <= PAGE_BYTES
}

/// Whether `moves` are one after the other from the start of the copy on.
pub open spec fn moves_tile(moves: Seq<CopyMove>, in_offset: u64, out_offset: u64) -> bool {
    forall|j: int|
        0 <= j < moves.len() ==> chunk_fits(
            (#[trigger] moves[j]).chunk,
            in_offset,
            out_offset,
            copied_bytes(moves, j as nat),
        )
}

proof fn lemma_copied_prefix(moves: Seq<CopyMove>, one: CopyMove, n: nat)
    requires
        n <= moves.len(),
    ensures
        copied_bytes(moves.push(one), n) == copied_bytes(moves, n),
    decreases n,
{
    if n > 0 {
        lemma_copied_prefix(moves, one, (n - 1) as nat);
    }
}

proof fn lemma_next_move_tiles(cursor: CopyCursor, moves: Seq<CopyMove>, last: CopyMove)
    requires
        cursor.wf(),
        cursor.advanced < cursor.len,
        last.chunk == cursor.next_chunk(),
        copied_bytes(moves, moves.len()) == cursor.advanced,
        moves_tile(moves, cursor.in_offset, cursor.out_offset),
    ensures
        cursor.advance_spec().wf(),
        copied_bytes(moves.push(last), moves.len() + 1) == cursor.advance_spec().advanced,
        moves_tile(moves.push(last), cursor.in_offset, cursor.out_offset),
{
    let more = moves.push(last);
    lemma_copied_prefix(moves, last, moves.len());
    assert(more[more.len() - 1] == last);
    assert forall|j: int| 0 <= j < more.len() implies chunk_fits(
        (#[trigger] more[j]).chunk,
        cursor.in_offset,
        cursor.out_offset,
        copied_bytes(more, j as nat),
    ) by {
        lemma_copied_prefix(moves, last, j as nat);
        if j < moves.len() {
            assert(more[j] == moves[j]);
        }
    }
}

proof fn lemma_copy_tiles(
    cursor: CopyCursor,
    source: ContainerView,
    target: ContainerView,
    notes: NotesView,
    replies: Seq<CopyReplies>,
    i: nat,
    moves: Seq<CopyMove>,
)
    requires
        cursor.wf(),
        copied_bytes(moves, moves.len()) == cursor.advanced,
        moves_tile(moves, cursor.in_offset, cursor.out_offset),
    ensures
        ({
            let ran = cursor.run(source, target, notes, replies, i, moves);
            &&& moves_tile(ran.moves, cursor.in_offset, cursor.out_offset)
            &&& ran.end matches Some(end) ==> copied_bytes(ran.moves, ran.moves.len())
                == end.advanced
        }),
    decreases replies.len() - i,
{
    if cursor.advanced < cursor.len && i < replies.len() {
        let chunk = cursor.next_chunk();
        let one = replies[i as int];
        let read = source.access_whole(chunk.in_page, MaterializeAccess::Read, one.input, notes);
        let written = target.access_whole(
            chunk.out_page,
            MaterializeAccess::Write,
            one.output,
            read.notes,
        );
        let last = CopyMove {
            chunk,
            from: read.outcome->Done_0.ppn,
            to: written.outcome->Done_0.ppn,
        };
        lemma_next_move_tiles(cursor, moves, last);
        lemma_copy_tiles(
            cursor.advance_spec(),
            read.view,
            written.view,
            written.notes,
            replies,
            i + 1,
            moves.push(last),
        );
    }
}

proof fn lemma_copy_within_tiles(
    cursor: CopyCursor,
    view: ContainerView,
    notes: NotesView,
    replies: Seq<CopyReplies>,
    i: nat,
    moves: Seq<CopyMove>,
)
    requires
        cursor.wf(),
        copied_bytes(moves, moves.len()) == cursor.advanced,
        moves_tile(moves, cursor.in_offset, cursor.out_offset),
    ensures
        ({
            let ran = cursor.run_within(view, notes, replies, i, moves);
            &&& moves_tile(ran.moves, cursor.in_offset, cursor.out_offset)
            &&& ran.end matches Some(end) ==> copied_bytes(ran.moves, ran.moves.len())
                == end.advanced
        }),
    decreases replies.len() - i,
{
    if cursor.advanced < cursor.len && i < replies.len() {
        let chunk = cursor.next_chunk();
        let one = replies[i as int];
        let read = view.access_whole(chunk.in_page, MaterializeAccess::Read, one.input, notes);
        let written = read.view.access_whole(
            chunk.out_page,
            MaterializeAccess::Write,
            one.output,
            read.notes,
        );
        let last = CopyMove {
            chunk,
            from: read.outcome->Done_0.ppn,
            to: written.outcome->Done_0.ppn,
        };
        lemma_next_move_tiles(cursor, moves, last);
        lemma_copy_within_tiles(
            cursor.advance_spec(),
            written.view,
            written.notes,
            replies,
            i + 1,
            moves.push(last),
        );
    }
}

/// The moves of a copy within one container tile the copied range, as with two.
pub proof fn law_copy_within_tiles_the_range(
    view: ContainerView,
    in_offset: u64,
    out_offset: u64,
    len: usize,
    replies: Seq<CopyReplies>,
    notes: NotesView,
)
    ensures
        ({
            let ran = view.copy_within(in_offset, out_offset, len, replies, notes);
            &&& moves_tile(ran.moves, in_offset, out_offset)
            &&& ran.end matches Some(end) ==> {
                &&& end.advanced <= len
                &&& end.advanced > 0 ==> {
                    &&& in_offset + end.advanced <= view.readable_end()
                    &&& out_offset + end.advanced <= view.capacity()->Some_0
                }
                &&& copied_bytes(ran.moves, ran.moves.len()) == end.advanced
                &&& end.outcome is Error ==> end.advanced == 0
                &&& end.outcome matches StepOutcome::Done(n) ==> n == end.advanced
            }
        }),
{
    if let CopyStart::Run(cursor) = copy_start(view, in_offset, view, out_offset, len) {
        cursor.lemma_run_within(view, notes, replies, 0, Seq::empty());
        lemma_copy_within_tiles(cursor, view, notes, replies, 0, Seq::empty());
    }
}

/// The moves of a copy tile the copied range: each starts, on both sides, where
/// the one before ended, none crosses a page, and together they are as many
/// bytes as the copy reports.
pub proof fn law_copy_tiles_the_range(
    source: ContainerView,
    in_offset: u64,
    target: ContainerView,
    out_offset: u64,
    len: usize,
    replies: Seq<CopyReplies>,
    notes: NotesView,
)
    ensures
        ({
            let ran = copy_step(source, in_offset, target, out_offset, len, replies, notes);
            &&& moves_tile(ran.moves, in_offset, out_offset)
            &&& ran.end matches Some(end) ==> {
                &&& end.advanced <= len
                &&& end.advanced > 0 ==> {
                    &&& in_offset + end.advanced <= source.readable_end()
                    &&& out_offset + end.advanced <= target.capacity()->Some_0
                }
                &&& copied_bytes(ran.moves, ran.moves.len()) == end.advanced
                &&& end.outcome is Error ==> end.advanced == 0
                &&& end.outcome matches StepOutcome::Done(n) ==> n == end.advanced
            }
        }),
{
    if let CopyStart::Run(cursor) = copy_start(source, in_offset, target, out_offset, len) {
        lemma_copy_run(cursor, source, target, notes, replies, 0, Seq::empty());
        lemma_copy_tiles(cursor, source, target, notes, replies, 0, Seq::empty());
    }
}

} // verus!
