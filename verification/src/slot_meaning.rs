//! What the transitions of a page come to: which states admit each of them, what
//! the page keeps, and what its next version is.

use crate::ids::{Errno, PageGeneration, Ppn};
use crate::slot::{
    PageSlotCompletionError, PageSlotFsyncStatus, PageSlotSnapshot, PageSlotState,
};
use vstd::prelude::*;

verus! {

/// Whether `slot` is the version right after `before`. Versions are numbered
/// from one, and start over there after the last number.
pub open spec fn follows(before: PageSlotSnapshot, slot: PageSlotSnapshot) -> bool {
    if before.generation.0 == u64::MAX {
        slot.generation.0 == 1
    } else {
        slot.generation.0 == before.generation.0 + 1
    }
}

/// Whether `ppn` is the frame that holds the page.
pub open spec fn lies_in(slot: PageSlotSnapshot, ppn: Ppn) -> bool {
    ||| slot.state matches PageSlotState::Resident { ppn: frame } && frame == ppn
    ||| slot.state matches PageSlotState::Dirty { ppn: frame } && frame == ppn
    ||| slot.state matches PageSlotState::Writeback { ppn: frame, .. } && frame == ppn
}

/// Whether no frame holds the page.
pub open spec fn lies_nowhere(slot: PageSlotSnapshot) -> bool {
    slot.state is Empty || slot.state is Fetching || slot.state is Error
}

/// What a page says that is in no state for the transition.
pub open spec fn wrong_state(slot: PageSlotSnapshot) -> PageSlotCompletionError {
    PageSlotCompletionError::NotFetching { state: slot.state, generation: slot.generation }
}

/// What a page says to a version that is not its own.
pub open spec fn wrong_version(
    slot: PageSlotSnapshot,
    completed: PageGeneration,
) -> PageSlotCompletionError {
    PageSlotCompletionError::GenerationMismatch { current: slot.generation, completed }
}

/// A page can be written exactly where a frame holds it. The write makes a new
/// version in the same frame that the store does not have; a writeback on its
/// way goes on with the version that it took.
pub proof fn law_a_page_in_a_frame_can_be_written(slot: PageSlotSnapshot)
    ensures
        slot.dirtied() matches Ok(after) ==> {
            &&& follows(slot, after)
            &&& forall|ppn: Ppn| #[trigger] lies_in(slot, ppn) == lies_in(after, ppn)
            &&& after.state is Dirty || after.state is Writeback
            &&& after.state is Writeback == slot.state is Writeback
            &&& after.state matches PageSlotState::Writeback {
                submitted_generation,
                redirtied,
                ..
            } ==> redirtied && submitted_generation == slot.state->submitted_generation
        },
        slot.dirtied() is Ok == !lies_nowhere(slot),
        slot.dirtied() matches Err(error) ==> error == wrong_state(slot),
{
}

/// A writeback can start exactly where a frame holds the page and no writeback
/// is on its way. It takes the version that the page has.
pub proof fn law_a_writeback_takes_the_current_version(slot: PageSlotSnapshot)
    ensures
        slot.writeback_begun() is Ok == (slot.state is Resident || slot.state is Dirty),
        slot.writeback_begun() matches Ok(after) ==> {
            &&& after.generation == slot.generation
            &&& after.state is Writeback
            &&& after.state->submitted_generation == slot.generation
            &&& !after.state->redirtied
            &&& forall|ppn: Ppn| #[trigger] lies_in(slot, ppn) == lies_in(after, ppn)
        },
        slot.writeback_begun() matches Err(error) ==> error == wrong_state(slot),
{
}

/// A writeback ends exactly under the version that it took. A page that was
/// written again is dirty; else it is clean after a success and in error after a
/// failure. The version of the page does not change.
pub proof fn law_a_writeback_ends_under_its_version(
    slot: PageSlotSnapshot,
    generation: PageGeneration,
    result: Result<(), Errno>,
)
    ensures
        slot.writeback_completed(generation, result) is Ok == (slot.state is Writeback
            && slot.state->submitted_generation == generation),
        slot.writeback_completed(generation, result) matches Ok(after) ==> {
            &&& after.generation == slot.generation
            &&& after.state is Dirty == slot.state->redirtied
            &&& after.state is Resident == (!slot.state->redirtied && result is Ok)
            &&& !slot.state->redirtied && result is Err ==> after.state == (PageSlotState::Error {
                errno: result->Err_0,
            })
            &&& after.state !is Error ==> forall|ppn: Ppn| #[trigger]
                lies_in(slot, ppn) == lies_in(after, ppn)
        },
        slot.writeback_completed(generation, result) matches Err(error) ==> error == if slot.state
            is Writeback {
            wrong_version(slot, generation)
        } else {
            wrong_state(slot)
        },
{
}

/// A writeback that was not submitted can be given up under its version; the
/// page is dirty again, in the same frame and version.
pub proof fn law_a_writeback_given_up_leaves_a_dirty_page(
    slot: PageSlotSnapshot,
    generation: PageGeneration,
)
    ensures
        slot.writeback_aborted(generation) is Ok == (slot.state is Writeback
            && slot.state->submitted_generation == generation),
        slot.writeback_aborted(generation) matches Ok(after) ==> {
            &&& after.generation == slot.generation
            &&& after.state is Dirty
            &&& forall|ppn: Ppn| #[trigger] lies_in(slot, ppn) == lies_in(after, ppn)
        },
        slot.writeback_aborted(generation) matches Err(error) ==> error == if slot.state
            is Writeback {
            wrong_version(slot, generation)
        } else {
            wrong_state(slot)
        },
{
}

/// A fetch ends exactly where one is under way, under its version: the page is
/// clean in the frame that was brought, or in error.
pub proof fn law_a_fetch_ends_under_its_version(
    slot: PageSlotSnapshot,
    generation: PageGeneration,
    result: Result<Ppn, Errno>,
)
    ensures
        slot.fetch_completed(generation, result) is Ok == (slot.state is Fetching
            && slot.generation == generation),
        slot.fetch_completed(generation, result) matches Ok(after) ==> {
            &&& after.generation == slot.generation
            &&& result is Ok ==> after.state is Resident && lies_in(after, result->Ok_0)
            &&& result is Err ==> after.state is Error && after.state->errno == result->Err_0
        },
        slot.fetch_completed(generation, result) matches Err(error) ==> error
            == if slot.generation != generation {
            wrong_version(slot, generation)
        } else {
            wrong_state(slot)
        },
{
}

/// A page leaves its frame exactly where the version and the frame are the named
/// ones. It is then empty, in a new version.
pub proof fn law_a_page_leaves_the_named_frame(
    slot: PageSlotSnapshot,
    generation: PageGeneration,
    ppn: Ppn,
)
    ensures
        slot.withdrawn(generation, ppn) is Ok == (slot.generation == generation && lies_in(
            slot,
            ppn,
        )),
        slot.withdrawn(generation, ppn) matches Ok(after) ==> follows(slot, after) && after.state
            is Empty,
        slot.withdrawn(generation, ppn) matches Err(error) ==> {
            if slot.generation != generation {
                error == wrong_version(slot, generation)
            } else if lies_nowhere(slot) {
                error == wrong_state(slot)
            } else {
                error matches PageSlotCompletionError::MismatchedFrame { expected, current }
                    && expected == ppn && lies_in(slot, current)
            }
        },
{
}

/// A page moves to another frame exactly where the version and the frame are the
/// named ones and no writeback reads the frame. It is as clean as before, in a
/// new version.
pub proof fn law_a_page_moves_from_the_named_frame(
    slot: PageSlotSnapshot,
    generation: PageGeneration,
    expected: Ppn,
    replacement: Ppn,
)
    ensures
        slot.replaced(generation, expected, replacement) is Ok == (slot.generation == generation
            && lies_in(slot, expected) && slot.state !is Writeback),
        slot.replaced(generation, expected, replacement) matches Ok(after) ==> {
            &&& follows(slot, after)
            &&& lies_in(after, replacement)
            &&& after.state is Dirty == slot.state is Dirty
            &&& after.state is Resident == slot.state is Resident
        },
        slot.replaced(generation, expected, replacement) matches Err(error) ==> {
            if slot.generation != generation {
                error == wrong_version(slot, generation)
            } else if lies_nowhere(slot) || slot.state is Writeback {
                error == wrong_state(slot)
            } else {
                error matches PageSlotCompletionError::MismatchedFrame { expected: named, current }
                    && named == expected && lies_in(slot, current)
            }
        },
{
}

/// A dirty page is declared clean exactly where the version and the frame are the
/// named ones. Nothing else about it changes.
pub proof fn law_a_dirty_page_is_declared_clean(
    slot: PageSlotSnapshot,
    generation: PageGeneration,
    ppn: Ppn,
)
    ensures
        slot.cleaned(generation, ppn) is Ok == (slot.generation == generation && slot.state
            is Dirty && lies_in(slot, ppn)),
        slot.cleaned(generation, ppn) matches Ok(after) ==> {
            &&& after.generation == slot.generation
            &&& after.state is Resident
            &&& lies_in(after, ppn)
        },
        slot.cleaned(generation, ppn) matches Err(error) ==> {
            if slot.generation != generation {
                error == wrong_version(slot, generation)
            } else if slot.state !is Dirty {
                error == wrong_state(slot)
            } else {
                error matches PageSlotCompletionError::MismatchedFrame { expected, current }
                    && expected == ppn && lies_in(slot, current)
            }
        },
{
}

/// An fsync that captured version `frontier` has to write exactly the dirty pages
/// that are not newer, waits for every writeback, and meets every error. Only a
/// writeback of an older version leaves it something to write afterwards.
pub proof fn law_an_fsync_looks_at_its_version(slot: PageSlotSnapshot, frontier: PageGeneration)
    ensures
        slot.fsync_status(frontier) is NeedsWriteback == (slot.state is Dirty && slot.generation.0
            <= frontier.0),
        slot.fsync_status(frontier) matches PageSlotFsyncStatus::NeedsWriteback { generation }
            ==> generation == slot.generation,
        slot.fsync_status(frontier) is WaitingForWriteback == (slot.state is Writeback
            && slot.state->submitted_generation.0 >= frontier.0),
        slot.fsync_status(frontier) is WaitingForEarlierWriteback == (slot.state is Writeback
            && slot.state->submitted_generation.0 < frontier.0),
        slot.fsync_status(frontier) matches PageSlotFsyncStatus::WaitingForWriteback {
            submitted_generation,
        } ==> submitted_generation == slot.state->submitted_generation,
        slot.fsync_status(frontier) matches PageSlotFsyncStatus::WaitingForEarlierWriteback {
            submitted_generation,
            frontier: captured,
        } ==> submitted_generation == slot.state->submitted_generation && captured == frontier,
        slot.fsync_status(frontier) is Error == slot.state is Error,
        slot.fsync_status(frontier) matches PageSlotFsyncStatus::Error { errno } ==> errno
            == slot.state->errno,
{
}

/// A page that was dirty when an fsync captured its version is owed to the store
/// until that version is written: the fsync writes it, then waits for it, and is
/// done with it once the writeback has succeeded.
pub proof fn law_an_fsync_sees_a_page_through(slot: PageSlotSnapshot)
    requires
        slot.state is Dirty,
    ensures
        ({
            let begun = slot.writeback_begun()->Ok_0;
            let written = begun.writeback_completed(slot.generation, Ok(()))->Ok_0;
            &&& slot.fsync_status(slot.generation) is NeedsWriteback
            &&& begun.fsync_status(slot.generation) is WaitingForWriteback
            &&& written.fsync_status(slot.generation) is Clean
        }),
{
}

/// The frame that a page names is the one that it lies in.
pub proof fn law_a_page_names_its_frame(slot: PageSlotSnapshot)
    ensures
        slot.state.frame() is None == lies_nowhere(slot),
        forall|ppn: Ppn| #[trigger] lies_in(slot, ppn) == (slot.state.frame() == Some(ppn)),
{
}

} // verus!
