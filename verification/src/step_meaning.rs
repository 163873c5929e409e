//! What single steps come to, for callers that take an operation one step at a
//! time: how a page takes a range on, how a copy goes on, how an access goes through
//! its steps, and when a truncation asks again.

use crate::access_run::{AccessEvent, AccessReplies, NotesView, PageOutcome};
use crate::container::{ContainerView, MaterializeAccess};
use crate::frame::MaterializedPage;
use crate::ids::{Errno, PageIndex, PageIoRequestId};
use crate::lifecycle::{FsReply, TruncateOp, TruncatePhase};
use crate::page_access::{AccessStep, AccessTurn};
use crate::planned_fetch::{drive_step, DriveStep};
use crate::service::{terminal_error, waits_for_completion, ServiceItemEnd};
use crate::step::{ByteProgress, NoProgress, PageProgress, StepOutcome, YieldShape};
use crate::transfer::{CopyCursor, CopyTurn, RangeCursor, RangeTurn};
use vstd::prelude::*;

verus! {

/// How a range that is `advanced` bytes on ends at an error: a range that has
/// brought bytes has brought them.
pub open spec fn ends_at_error(advanced: usize, errno: Errno) -> StepOutcome<usize, ByteProgress> {
    if advanced > 0 {
        StepOutcome::Done(advanced)
    } else {
        StepOutcome::Error(errno)
    }
}

/// How a range that is `advanced` bytes on ends where a page makes it wait: only a
/// wait source can be waited for.
pub open spec fn ends_at_wait(advanced: usize, shape: YieldShape) -> StepOutcome<
    usize,
    ByteProgress,
> {
    match shape {
        YieldShape::OnWaitSource { .. } => StepOutcome::Yield {
            progress: ByteProgress(advanced),
            shape,
        },
        _ => ends_at_error(advanced, Errno::EIO),
    }
}

/// The part of a range that comes next lies in one page, starts where the range
/// stands, and is as long as the page and the range allow. A write accesses pages
/// for writing, a read for reading.
pub proof fn law_the_next_part_lies_in_one_page(range: RangeCursor)
    requires
        range.wf(),
        range.advanced < range.len,
    ensures
        ({
            let part = range.next_chunk();
            &&& part.page.0 * 4096 + part.within == range.start + range.advanced
            &&& part.within < 4096
            &&& 0 < part.len
            &&& part.within + part.len <= 4096
            &&& part.len <= range.len - range.advanced
            &&& part.within + part.len == 4096 || part.len == range.len - range.advanced
            &&& range.access_spec() is Write == range.kind is Write
        }),
{
}

/// A page that is there takes the range on by its part, and so does one that has to
/// be tried again; with the last part the range is done. An error or a wait ends the
/// range where it stands.
pub proof fn law_a_page_takes_the_range_on(range: RangeCursor, page: PageOutcome)
    requires
        range.wf(),
        range.advanced < range.len,
    ensures
        ({
            let (next, stands) = range.applied(page);
            let part = range.next_chunk().len;
            &&& next.start == range.start
            &&& next.len == range.len
            &&& next.kind == range.kind
            &&& page is Done || page is Continue ==> {
                &&& next.advanced == range.advanced + part
                &&& next.advanced < range.len ==> stands is Going
                &&& next.advanced == range.len ==> stands == RangeTurn::Ended(
                    StepOutcome::Done(range.len),
                )
            }
            &&& page matches StepOutcome::Error(errno) ==> next == range && stands
                == RangeTurn::Ended(ends_at_error(range.advanced, errno))
            &&& page matches StepOutcome::Yield { shape, .. } ==> next == range && stands
                == RangeTurn::Ended(ends_at_wait(range.advanced, shape))
        }),
{
    law_the_next_part_lies_in_one_page(range);
}

/// While the access to a page goes on outside, the range stands; whoever is to be
/// told by the step is told, at its end too.
pub proof fn law_a_range_stands_while_its_page_is_accessed(range: RangeCursor, turn: AccessTurn)
    ensures
        ({
            let (next, step) = range.turned(turn);
            &&& step.notify == turn.notify
            &&& step.kick_block == turn.kick_block
            &&& turn.step matches AccessStep::Finished(page) ==> next == range.applied(page).0
                && step.turn == range.applied(page).1
            &&& turn.step !is Finished ==> next == range && step.turn == RangeTurn::Access(
                turn.step,
            )
        }),
{
}

/// The bytes that a copy moves next lie in one page of the source and in one page of
/// the target, start where the copy stands, and are as many as both pages and the
/// copy allow.
pub proof fn law_the_next_bytes_of_a_copy_lie_in_two_pages(copy: CopyCursor)
    requires
        copy.wf(),
        copy.advanced < copy.len,
    ensures
        ({
            let part = copy.next_chunk();
            &&& part.in_page.0 * 4096 + part.in_within == copy.in_offset + copy.advanced
            &&& part.out_page.0 * 4096 + part.out_within == copy.out_offset + copy.advanced
            &&& part.in_within < 4096
            &&& part.out_within < 4096
            &&& 0 < part.len
            &&& part.in_within + part.len <= 4096
            &&& part.out_within + part.len <= 4096
            &&& part.len <= copy.len - copy.advanced
            &&& part.in_within + part.len == 4096 || part.out_within + part.len == 4096 || part.len
                == copy.len - copy.advanced
            &&& copy.advance_spec().advanced == copy.advanced + part.len
            &&& copy.advance_spec().in_offset == copy.in_offset
            &&& copy.advance_spec().out_offset == copy.out_offset
            &&& copy.advance_spec().len == copy.len
        }),
{
}

/// A page that is there lets a copy go on with it. Any other end of the access ends
/// the copy where it stands; a page that has to be tried again means that the caller
/// has to come again.
pub proof fn law_a_copy_goes_on_with_a_page(copy: CopyCursor, turn: AccessTurn)
    ensures
        ({
            let step = copy.turned(turn);
            &&& step.notify == turn.notify
            &&& step.kick_block == turn.kick_block
            &&& turn.step !is Finished ==> step.turn == CopyTurn::Access(turn.step)
            &&& turn.step matches AccessStep::Finished(page) ==> match page {
                StepOutcome::Done(ready) => step.turn == CopyTurn::Ready(ready),
                StepOutcome::Continue { .. } => step.turn == CopyTurn::Ended(
                    ends_at_error(copy.advanced, Errno::EAGAIN),
                ),
                StepOutcome::Yield { shape, .. } => step.turn == CopyTurn::Ended(
                    ends_at_wait(copy.advanced, shape),
                ),
                StepOutcome::Error(errno) => step.turn == CopyTurn::Ended(
                    ends_at_error(copy.advanced, errno),
                ),
            }
        }),
{
}

/// Bytes that were brought are visible, and nothing that was visible is hidden.
pub proof fn law_brought_bytes_are_visible(view: ContainerView, offset: u64, advanced: usize)
    requires
        offset + advanced <= u64::MAX,
    ensures
        ({
            let after = view.with_progress(offset, advanced);
            &&& advanced > 0 ==> after.size_bytes >= offset + advanced
            &&& after.size_bytes >= view.size_bytes
            &&& after.size_bytes == view.size_bytes || (advanced > 0 && after.size_bytes == offset
                + advanced)
            &&& after == ContainerView { size_bytes: after.size_bytes, ..view }
        }),
{
}

/// A truncation asks the filesystem once. If its pages have to be waited for, only
/// the container follows in the next steps, by what the filesystem said; once it is
/// over it may ask again.
pub proof fn law_a_truncation_asks_once(
    op: TruncateOp,
    view: ContainerView,
    reply: FsReply,
    retire: bool,
)
    ensures
        op.phase is Ask ==> op.stepped(view, reply, retire) == view.truncate_step(
            op.new_size,
            reply,
            retire,
        ),
        op.phase matches TruncatePhase::Commit { advanced } ==> {
            let fits = op.new_size <= view.page_count * 4096 && view.page_count * 4096 <= u64::MAX;
            &&& fits && view.kind !is Device ==> op.stepped(view, reply, retire)
                == view.commit_size(op.new_size, advanced, retire)
            &&& !fits ==> op.stepped(view, reply, retire).outcome == StepOutcome::<
                (),
                PageProgress,
            >::Error(Errno::EINVAL) && op.stepped(view, reply, retire).view == view
        },
        op.stepped(view, reply, retire).pending ==> {
            let next = op.next_phase(view, reply, retire);
            &&& next is Commit
            &&& op.phase is Ask ==> next->advanced == (view.kind is File && reply is Continue)
            &&& op.phase is Commit ==> next == op.phase
        },
        !op.stepped(view, reply, retire).pending ==> op.next_phase(view, reply, retire) is Ask,
{
}

/// `notes` with what a step leaves to be done.
pub open spec fn noted(notes: NotesView, notify: Option<u64>, kick_block: bool) -> NotesView {
    NotesView {
        notify: match notify {
            Some(source) => notes.notify.push(source),
            None => notes.notify,
        },
        kick_block: notes.kick_block || kick_block,
        work: notes.work,
    }
}

/// An access whose first step ends it is that step.
pub proof fn law_an_access_can_end_at_once(
    view: ContainerView,
    page: PageIndex,
    access: MaterializeAccess,
    replies: AccessReplies,
    notes: NotesView,
)
    requires
        view.access_page(page, access, replies.first).1.step is Finished,
    ensures
        ({
            let (after, turn) = view.access_page(page, access, replies.first);
            let whole = view.access_whole(page, access, replies, notes);
            &&& whole.view == after
            &&& whole.outcome == turn.step->Finished_0
            &&& whole.notes =~= noted(notes, turn.notify, turn.kick_block)
        }),
{
    reveal(ContainerView::access_whole);
}

/// An access whose page the filesystem fetches ends with what that brought.
pub proof fn law_an_access_ends_with_what_was_fetched(
    view: ContainerView,
    page: PageIndex,
    access: MaterializeAccess,
    replies: AccessReplies,
    notes: NotesView,
)
    requires
        view.access_page(page, access, replies.first).1.step is Fetch,
    ensures
        ({
            let (begun, turn) = view.access_page(page, access, replies.first);
            let (after, end) = begun.access_event(
                page,
                access,
                AccessEvent::Fetched { fetch: turn.step->Fetch_fetch, replies: replies.fetch },
            );
            let whole = view.access_whole(page, access, replies, notes);
            &&& whole.view == after
            &&& end.step matches AccessStep::Finished(outcome) && outcome == whole.outcome
            &&& whole.notes =~= noted(
                noted(notes, turn.notify, turn.kick_block),
                end.notify,
                false,
            )
        }),
{
    reveal(ContainerView::access_whole);
}

/// A write that the filesystem does not let be prepared ends there; nothing has been
/// accessed.
pub proof fn law_an_access_ends_where_it_is_not_prepared(
    view: ContainerView,
    page: PageIndex,
    access: MaterializeAccess,
    replies: AccessReplies,
    notes: NotesView,
)
    requires
        view.access_page(page, access, replies.first).1.step is PrepareWrite,
        replies.prepared !is Done,
    ensures
        ({
            let whole = view.access_whole(page, access, replies, notes);
            &&& whole.view == view
            &&& whole.notes =~= notes
            &&& match replies.prepared {
                StepOutcome::Error(errno) => whole.outcome == StepOutcome::<
                    MaterializedPage,
                    NoProgress,
                >::Error(errno),
                StepOutcome::Continue { .. } => whole.outcome == StepOutcome::<
                    MaterializedPage,
                    NoProgress,
                >::Error(Errno::EAGAIN),
                StepOutcome::Yield { shape, .. } => match shape {
                    YieldShape::OnWaitSource { .. } => whole.outcome matches StepOutcome::Yield {
                        shape: passed,
                        ..
                    } && passed == shape,
                    _ => whole.outcome == StepOutcome::<MaterializedPage, NoProgress>::Error(
                        Errno::EIO,
                    ),
                },
                _ => true,
            }
        }),
{
    reveal(ContainerView::access_whole);
}

/// A page that a planner serves is served by what the page service made of it, and
/// ends there unless the filesystem has to fetch it after all. What the service did
/// is noted.
pub proof fn law_an_access_is_served_by_a_plan(
    view: ContainerView,
    page: PageIndex,
    access: MaterializeAccess,
    replies: AccessReplies,
    notes: NotesView,
)
    requires
        view.access_page(page, access, replies.first).1.step is Drive,
    ensures
        ({
            let (begun, turn) = view.access_page(page, access, replies.first);
            let asked = if begun.fetches.contains_key(page.0) {
                begun.fetches[page.0].request_id
            } else {
                None
            };
            let driven = begun.drive_fetch(asked, replies.drive.first, replies.drive.second);
            let fetch = turn.step->Drive_fetch;
            let (served, next) = driven.view.access_event(
                page,
                access,
                AccessEvent::Driven {
                    fetch,
                    failed: driven.failed,
                    waits: driven.waits,
                    pins: replies.drive.pins,
                    fresh: replies.drive.fresh,
                },
            );
            let whole = view.access_whole(page, access, replies, notes);
            let first = noted(notes, turn.notify, turn.kick_block);
            let second = noted(
                NotesView { work: first.work + driven.work, ..first },
                next.notify,
                next.kick_block,
            );
            &&& next.step is Finished ==> {
                &&& whole.view == served
                &&& whole.outcome == next.step->Finished_0
                &&& whole.notes =~= second
            }
            &&& next.step is Fetch ==> {
                let (after, end) = served.access_event(
                    page,
                    access,
                    AccessEvent::Fetched { fetch: next.step->Fetch_fetch, replies: replies.fetch },
                );
                &&& whole.view == after
                &&& end.step matches AccessStep::Finished(outcome) && outcome == whole.outcome
                &&& whole.notes =~= noted(second, end.notify, false)
            }
        }),
{
    reveal(ContainerView::access_whole);
}

/// A fetch is over where its request failed. Else it has to wait where transfers are
/// under way, and the page service runs once more where it has more to do.
pub proof fn law_a_fetch_is_driven_on(
    work: Seq<ServiceItemEnd>,
    runnable: bool,
    id: Option<PageIoRequestId>,
)
    ensures
        match drive_step(work, runnable, id) {
            DriveStep::Failed(errno) => terminal_error(work, id) == Some(errno),
            DriveStep::Again { waits } => terminal_error(work, id) is None && runnable && waits
                == waits_for_completion(work),
            DriveStep::Driven { waits } => terminal_error(work, id) is None && !runnable && waits
                == waits_for_completion(work),
        },
{
}

} // verus!
